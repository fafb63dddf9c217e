//! Construction of the nodes of a block, one after the other.
//!
//! An [`IrBuilder`] holds the block it builds and an insertion point in it.
//! Every operation makes a node, links it in after the insertion point and
//! moves the insertion point to it, so that nodes built in sequence stand
//! in the block in the order in which they were built.

use crate::block::{
    closed, closed_kept, cut, lemma_all_kept, lemma_closed_kept, lemma_closed_same,
    lemma_inserted, nested_blocks, others_kept, wf_kept,
};
use crate::inspect::wrap_i32;
use crate::node::{
    share, BasicBlock, Const, Func, Instruction, Node, NodeRef, PhiIncoming, SwitchCase,
};
use crate::pool::{new_node, ModulePools};
use crate::registry::TypeRef;
use crate::types::Type;
use std::sync::Arc;
use vstd::prelude::*;
use vstd::slice::slice_to_vec;

verus! {

pub struct IrBuilder {
    pub bb: BasicBlock,
    pub insert_point: NodeRef,
}

/// The incoming values of a phi node of user data agree: the first is a
/// user-data node, and every other one is unreachable code or a user-data
/// node with the tag and the data of the first.
pub open spec fn userdata_agree(p: &ModulePools, incoming: Seq<PhiIncoming>) -> bool {
    &&& incoming.len() > 0
    &&& p.contains(incoming[0].value)
    &&& p.instruction(incoming[0].value) is UserData
    &&& forall|i: int|
        1 <= i < incoming.len() ==> {
            &&& p.contains((#[trigger] incoming[i]).value)
            &&& {
                ||| (p.instruction(incoming[i].value) matches Instruction::Call(f, _) && f
                    is Unreachable)
                ||| (p.instruction(incoming[i].value) matches Instruction::UserData(u) && u.agrees(
                    p.instruction(incoming[0].value)->UserData_0,
                ))
            }
        }
}

/// Whether two byte strings are equal.
fn same_bytes(a: &Vec<u8>, b: &Vec<u8>) -> (r: bool)
    ensures
        r == (a@ == b@),
{
    if a.len() != b.len() {
        return false;
    }
    let mut i: usize = 0;
    while i < a.len()
        invariant
            i <= a.len(),
            a.len() == b.len(),
            forall|j: int| 0 <= j < i ==> a@[j] == b@[j],
        decreases a.len() - i,
    {
        if a[i] != b[i] {
            return false;
        }
        i += 1;
    }
    assert(a@ =~= b@);
    true
}

impl IrBuilder {
    /// The insertion point lies in the block: it is a node of the block,
    /// or the head sentinel.
    pub open spec fn wf(&self, p: &ModulePools) -> bool {
        &&& p.wf()
        &&& self.bb.wf(p)
        &&& (self.insert_point == self.bb.first || self.bb.nodes_spec(p).contains(
            self.insert_point,
        ))
    }

    /// The nodes built so far, in order.
    pub open spec fn nodes(&self, p: &ModulePools) -> Seq<NodeRef> {
        self.bb.nodes_spec(p)
    }

    /// Position in the block at which the next node is linked in.
    pub open spec fn cursor(&self, p: &ModulePools) -> int {
        cut(self.bb, self.bb.nodes_spec(p), self.insert_point)
    }

    /// `node` was linked in at the insertion point of `before`, and the
    /// insertion point moved to it; other blocks are as they were.
    pub open spec fn appended(
        &self,
        before: &IrBuilder,
        old: &ModulePools,
        new: &ModulePools,
        node: NodeRef,
    ) -> bool {
        &&& self.wf(new)
        &&& self.bb == before.bb
        &&& self.insert_point == node
        &&& self.nodes(new) == before.nodes(old).insert(before.cursor(old), node)
        &&& self.cursor(new) == before.cursor(old) + 1
        &&& others_kept(old, new, self.bb)
        &&& wf_kept(old, new)
    }

    /// Nested blocks stay well formed where those of the new node `node` are.
    pub open spec fn nesting_kept(old: &ModulePools, new: &ModulePools, node: NodeRef) -> bool {
        closed(old) && (forall|j: int|
            0 <= j < nested_blocks(new.instruction(node)).len() ==> (#[trigger] nested_blocks(
                new.instruction(node),
            )[j]).wf(old)) ==> closed(new)
    }

    /// `node` is a new node of type `type_` that was linked in at the
    /// insertion point of `before`; the nodes that were there are as they
    /// were, but for the links of the two neighbours of `node`.
    pub open spec fn emitted(
        &self,
        before: &IrBuilder,
        old: &ModulePools,
        new: &ModulePools,
        node: NodeRef,
        type_: TypeRef,
    ) -> bool {
        &&& self.appended(before, old, new, node)
        &&& node.0 == old.len() + 1
        &&& new.len() == old.len() + 1
        &&& new.bb_pool == old.bb_pool
        &&& new.node(node).type_ == type_
        &&& forall|r: NodeRef| #[trigger]
            old.contains(r) ==> new.node(r).instruction == old.node(r).instruction && new.node(
                r,
            ).type_ == old.node(r).type_
        &&& Self::nesting_kept(old, new, node)
    }

    /// `first` and then `second` are new nodes that were linked in, one
    /// after the other, at the insertion point of `before`.
    pub open spec fn emitted_pair(
        &self,
        before: &IrBuilder,
        old: &ModulePools,
        new: &ModulePools,
        first: NodeRef,
        second: NodeRef,
    ) -> bool {
        &&& self.wf(new)
        &&& self.bb == before.bb
        &&& self.insert_point == second
        &&& first.0 == old.len() + 1
        &&& second.0 == old.len() + 2
        &&& new.len() == old.len() + 2
        &&& new.bb_pool == old.bb_pool
        &&& self.nodes(new) == before.nodes(old).insert(before.cursor(old), first).insert(
            before.cursor(old) + 1,
            second,
        )
        &&& self.cursor(new) == before.cursor(old) + 2
        &&& forall|r: NodeRef| #[trigger]
            old.contains(r) ==> new.node(r).instruction == old.node(r).instruction && new.node(
                r,
            ).type_ == old.node(r).type_
        &&& others_kept(old, new, self.bb)
        &&& wf_kept(old, new)
        &&& closed_kept(old, new)
    }

    /// A builder of a new, empty block.
    pub fn new(pools: &mut ModulePools) -> (b: Self)
        requires
            old(pools).wf(),
        ensures
            b.wf(final(pools)),
            b.insert_point == b.bb.first,
            b.nodes(final(pools)) == Seq::<NodeRef>::empty(),
            b.cursor(final(pools)) == 0,
            final(pools).extends(old(pools)),
            final(pools).len() == old(pools).len() + 2,
            final(pools).bb_pool@ == old(pools).bb_pool@.push(b.bb),
            !old(pools).contains(b.bb.first),
            !old(pools).contains(b.bb.last),
            crate::block::all_kept(old(pools), final(pools)),
            wf_kept(old(pools), final(pools)),
            closed_kept(old(pools), final(pools)),
    {
        let bb = BasicBlock::new(pools);
        let ghost fresh = *pools;
        pools.bb_pool.allocate(bb);
        proof {
            crate::block::lemma_same_node_pool(&fresh, pools);
            assert(bb.chain(pools, Seq::empty()) == bb.chain(&fresh, Seq::empty()));
            crate::block::lemma_chain_unique(pools, bb, bb.nodes_spec(pools), Seq::empty());
            assert forall|c: BasicBlock| #[trigger] c.kept(old(pools), pools) by {
                assert(c.kept(old(pools), &fresh));
                assert(c.kept(&fresh, pools));
            }
            assert forall|c: BasicBlock| c.wf(old(pools)) implies #[trigger] c.wf(pools) by {
                assert(c.kept(old(pools), pools));
            }
            assert forall|r: NodeRef| #[trigger] old(pools).contains(r) implies pools.node(r) == old(
                pools,
            ).node(r) by {
                assert(fresh.node(r) == old(pools).node(r));
            }
            if closed(&fresh) {
                assert forall|c: BasicBlock| c.wf(&fresh) implies #[trigger] c.wf(pools) by {
                    assert(c.kept(&fresh, pools));
                }
                assert forall|r: NodeRef| #[trigger] fresh.contains(r) implies pools.node(
                    r,
                ).instruction == fresh.node(r).instruction by {}
                lemma_closed_kept(&fresh, pools);
            }
        }
        IrBuilder { bb, insert_point: bb.first }
    }

    /// Moves the insertion point to `node`.  The builder stays well formed
    /// where `node` is a node of the block or its head sentinel.
    pub fn set_insert_point(&mut self, node: NodeRef)
        ensures
            final(self).bb == old(self).bb,
            final(self).insert_point == node,
            forall|p: &ModulePools|
                #![trigger final(self).wf(p)]
                old(self).wf(p) && (node == old(self).bb.first || old(self).nodes(p).contains(node))
                    ==> final(self).wf(p),
    {
        self.insert_point = node;
    }

    /// Links `node` in after the insertion point and moves the insertion
    /// point to it.
    pub fn append(&mut self, pools: &mut ModulePools, node: NodeRef)
        requires
            old(self).wf(old(pools)),
            old(pools).contains(node),
            !old(pools).linked(node),
        ensures
            final(self).appended(old(self), old(pools), final(pools), node),
            final(pools).same_payload(old(pools)),
            closed_kept(old(pools), final(pools)),
    {
        let ghost s = self.bb.nodes_spec(pools);
        let ghost k = self.cursor(pools);
        proof {
            if self.insert_point != self.bb.first {
                assert(s[s.index_of(self.insert_point)] == self.insert_point);
            }
            assert(self.insert_point == self.bb.at(s, k - 1));
            assert(pools.next(self.bb.at(s, k - 1)) == self.bb.after(s, k - 1));
            if k < s.len() {
                assert(pools.contains(s[k]));
            }
        }
        self.insert_point.insert_after_self(pools, node);
        self.insert_point = node;
        proof {
            lemma_inserted(old(pools), pools, self.bb, s, k, node);
            let t = s.insert(k, node);
            assert(t[k] == node);
            assert(t.contains(node));
            assert(t.index_of(node) == k) by {
                let j = t.index_of(node);
                assert(t[j] == node);
            }
            lemma_closed_same(old(pools), pools);
        }
    }

    /// Moves the nodes of `block` to the end of the block being built and
    /// puts the insertion point after them.
    pub fn append_block(&mut self, pools: &mut ModulePools, block: BasicBlock)
        requires
            old(self).wf(old(pools)),
            block.wf(old(pools)),
        ensures
            final(self).wf(final(pools)),
            final(self).bb == old(self).bb,
            final(pools).same_payload(old(pools)),
            block.first != old(self).bb.first ==> final(self).nodes(final(pools)) == old(
                self,
            ).nodes(old(pools)) + block.nodes_spec(old(pools)) && block.nodes_spec(final(pools))
                == Seq::<NodeRef>::empty(),
            block.first == old(self).bb.first ==> final(self).nodes(final(pools)) == old(
                self,
            ).nodes(old(pools)),
            final(self).cursor(final(pools)) == final(self).nodes(final(pools)).len(),
            forall|b: BasicBlock|
                b.first != old(self).bb.first && b.first != block.first ==> #[trigger] b.kept(
                    old(pools),
                    final(pools),
                ),
            wf_kept(old(pools), final(pools)),
            closed_kept(old(pools), final(pools)),
    {
        self.bb.merge(pools, block);
        proof {
            let s = self.bb.nodes_spec(pools);
            crate::block::lemma_chain_prev(pools, self.bb, s, s.len() as int);
        }
        self.insert_point = self.bb.last.get(pools).prev;
        proof {
            let s = self.bb.nodes_spec(pools);
            if s.len() > 0 {
                let last = s[s.len() - 1];
                assert(s.contains(last));
                assert(s.index_of(last) == s.len() - 1) by {
                    let j = s.index_of(last);
                    assert(s[j] == last);
                }
            }
        }
    }

    /// Makes a node and links it in at the insertion point.
    fn emit(&mut self, pools: &mut ModulePools, instruction: Instruction, type_: TypeRef) -> (r:
        NodeRef)
        requires
            old(self).wf(old(pools)),
        ensures
            final(self).emitted(old(self), old(pools), final(pools), r, type_),
            final(pools).instruction(r) == instruction,
    {
        self.emit_shared(pools, Arc::new(instruction), type_)
    }

    /// Makes a node of an instruction that may be shared with other nodes
    /// and links it in at the insertion point.
    fn emit_shared(
        &mut self,
        pools: &mut ModulePools,
        instruction: Arc<Instruction>,
        type_: TypeRef,
    ) -> (r: NodeRef)
        requires
            old(self).wf(old(pools)),
        ensures
            final(self).emitted(old(self), old(pools), final(pools), r, type_),
            final(pools).node(r).instruction == instruction,
    {
        let node = new_node(pools, Node::new(instruction, type_));
        let ghost base = *pools;
        proof {
            assert forall|r: NodeRef|
                old(pools).contains(r) && old(pools).linked(r) implies #[trigger] base.same_links(
                old(pools),
                r,
            ) by {
                assert(base.node(r) == old(pools).node(r));
            }
            lemma_all_kept(old(pools), &base);
            assert(self.bb.kept(old(pools), &base));
        }
        self.append(pools, node);
        proof {
            assert forall|b: BasicBlock| b.first != self.bb.first implies #[trigger] b.kept(
                old(pools),
                pools,
            ) by {
                assert(b.kept(old(pools), &base));
                assert(b.kept(&base, pools));
            }
            assert forall|b: BasicBlock| b.wf(old(pools)) implies #[trigger] b.wf(pools) by {
                assert(b.kept(old(pools), &base));
                assert(b.wf(&base));
            }
            assert forall|r: NodeRef| #[trigger] old(pools).contains(r) implies pools.node(
                r,
            ).instruction == old(pools).node(r).instruction && pools.node(r).type_ == old(
                pools,
            ).node(r).type_ by {
                assert(base.contains(r));
                assert(base.node(r) == old(pools).node(r));
            }
            if closed(old(pools)) && (forall|j: int|
                0 <= j < nested_blocks(pools.instruction(node)).len() ==> (#[trigger] nested_blocks(
                    pools.instruction(node),
                )[j]).wf(old(pools))) {
                assert forall|r: NodeRef, j: int|
                    pools.contains(r) && !old(pools).contains(r) && 0 <= j < nested_blocks(
                        pools.instruction(r),
                    ).len() implies (#[trigger] nested_blocks(pools.instruction(r))[j]).wf(
                    pools,
                ) by {
                    assert(r == node);
                    assert(nested_blocks(pools.instruction(node))[j].wf(old(pools)));
                }
                lemma_closed_kept(old(pools), pools);
            }
        }
        node
    }

    pub fn break_(&mut self, pools: &mut ModulePools) -> (r: NodeRef)
        requires
            old(self).wf(old(pools)),
        ensures
            final(self).emitted(old(self), old(pools), final(pools), r, Type::spec_void()),
            final(pools).instruction(r) == Instruction::Break,
    {
        self.emit(pools, Instruction::Break, Type::void())
    }

    pub fn continue_(&mut self, pools: &mut ModulePools) -> (r: NodeRef)
        requires
            old(self).wf(old(pools)),
        ensures
            final(self).emitted(old(self), old(pools), final(pools), r, Type::spec_void()),
            final(pools).instruction(r) == Instruction::Continue,
    {
        self.emit(pools, Instruction::Continue, Type::void())
    }

    /// Builds the return of `node`.
    pub fn return_(&mut self, pools: &mut ModulePools, node: NodeRef)
        requires
            old(self).wf(old(pools)),
        ensures
            final(self).emitted(
                old(self),
                old(pools),
                final(pools),
                final(self).insert_point,
                Type::spec_void(),
            ),
            final(pools).instruction(final(self).insert_point) == Instruction::Return(node),
    {
        self.emit(pools, Instruction::Return(node), Type::void());
    }

    /// Builds the call of an intrinsic.
    pub fn call(&mut self, pools: &mut ModulePools, func: Func, args: &[NodeRef], ret_type: TypeRef) -> (r:
        NodeRef)
        requires
            old(self).wf(old(pools)),
        ensures
            final(self).emitted(old(self), old(pools), final(pools), r, ret_type),
            final(pools).instruction(r) matches Instruction::Call(f, a) && f == func && a@
                == args@,
    {
        self.emit(pools, Instruction::Call(func, slice_to_vec(args)), ret_type)
    }

    /// Builds the zero value of a type.
    pub fn zero_initializer(&mut self, pools: &mut ModulePools, ty: TypeRef) -> (r: NodeRef)
        requires
            old(self).wf(old(pools)),
        ensures
            final(self).emitted(old(self), old(pools), final(pools), r, ty),
            final(pools).instruction(r) matches Instruction::Call(f, a) && f == Func::ZeroInitializer
                && a@ == Seq::<NodeRef>::empty(),
    {
        let args: Vec<NodeRef> = Vec::new();
        self.call(pools, Func::ZeroInitializer, args.as_slice(), ty)
    }

    pub fn requires_gradient(&mut self, pools: &mut ModulePools, node: NodeRef) -> (r: NodeRef)
        requires
            old(self).wf(old(pools)),
        ensures
            final(self).emitted(old(self), old(pools), final(pools), r, Type::spec_void()),
            final(pools).instruction(r) matches Instruction::Call(f, a) && f
                == Func::RequiresGradient && a@ == seq![node],
    {
        let mut args: Vec<NodeRef> = Vec::new();
        args.push(node);
        self.call(pools, Func::RequiresGradient, args.as_slice(), Type::void())
    }

    /// Builds the gradient of `node`, of the type of `node`.
    pub fn gradient(&mut self, pools: &mut ModulePools, node: NodeRef) -> (r: NodeRef)
        requires
            old(self).wf(old(pools)),
            old(pools).contains(node),
        ensures
            final(self).emitted(
                old(self),
                old(pools),
                final(pools),
                r,
                old(pools).node(node).type_,
            ),
            final(pools).instruction(r) matches Instruction::Call(f, a) && f == Func::Gradient && a@
                == seq![node],
    {
        let mut args: Vec<NodeRef> = Vec::new();
        args.push(node);
        let ty = node.type_(pools);
        self.call(pools, Func::Gradient, args.as_slice(), ty)
    }

    /// Builds a node with the instruction and the type of `node`; the
    /// instruction is shared, not copied.
    pub fn clone_node(&mut self, pools: &mut ModulePools, node: NodeRef) -> (r: NodeRef)
        requires
            old(self).wf(old(pools)),
            old(pools).contains(node),
        ensures
            final(self).emitted(
                old(self),
                old(pools),
                final(pools),
                r,
                old(pools).node(node).type_,
            ),
            final(pools).node(r).instruction == old(pools).node(node).instruction,
    {
        let source = node.get(pools);
        let instruction = share(&source.instruction);
        let ty = source.type_;
        self.emit_shared(pools, instruction, ty)
    }

    /// Builds a constant, of the type of the constant.
    pub fn const_(&mut self, pools: &mut ModulePools, const_: Const) -> (r: NodeRef)
        requires
            old(self).wf(old(pools)),
        ensures
            final(self).emitted(old(self), old(pools), final(pools), r, const_.spec_type()),
            final(pools).instruction(r) == Instruction::Const(const_),
    {
        let t = const_.type_();
        self.emit(pools, Instruction::Const(const_), t)
    }

    /// Builds a variable whose initial value is `init`, of the type of `init`.
    pub fn local(&mut self, pools: &mut ModulePools, init: NodeRef) -> (r: NodeRef)
        requires
            old(self).wf(old(pools)),
            old(pools).contains(init),
        ensures
            final(self).emitted(
                old(self),
                old(pools),
                final(pools),
                r,
                old(pools).node(init).type_,
            ),
            final(pools).instruction(r) == (Instruction::Local { init }),
    {
        let t = init.type_(pools);
        self.emit(pools, Instruction::Local { init }, t)
    }

    /// Builds the zero value of `ty` and a variable initialised with it.
    pub fn local_zero_init(&mut self, pools: &mut ModulePools, ty: TypeRef) -> (r: NodeRef)
        requires
            old(self).wf(old(pools)),
        ensures
            final(self).emitted_pair(
                old(self),
                old(pools),
                final(pools),
                NodeRef((old(pools).len() + 1) as usize),
                r,
            ),
            final(pools).instruction(NodeRef((old(pools).len() + 1) as usize)) matches Instruction::Call(
                f,
                a,
            ) && f == Func::ZeroInitializer && a@ == Seq::<NodeRef>::empty(),
            final(pools).node(NodeRef((old(pools).len() + 1) as usize)).type_ == ty,
            final(pools).instruction(r) == (Instruction::Local {
                init: NodeRef((old(pools).len() + 1) as usize),
            }),
            final(pools).node(r).type_ == ty,
    {
        let node = self.zero_initializer(pools, ty);
        let ghost base = *pools;
        let local = self.local(pools, node);
        proof {
            assert forall|b: BasicBlock| b.first != self.bb.first implies #[trigger] b.kept(
                old(pools),
                pools,
            ) by {
                assert(b.kept(old(pools), &base));
                assert(b.kept(&base, pools));
            }
            assert forall|r0: NodeRef| #[trigger] old(pools).contains(r0) implies pools.node(
                r0,
            ).instruction == old(pools).node(r0).instruction && pools.node(r0).type_ == old(
                pools,
            ).node(r0).type_ by {
                assert(base.contains(r0));
            }
            assert(base.contains(node));
        }
        local
    }

    /// Builds the constant `index`, cut to 32 bits, and the extraction of
    /// the component of `node` that it names.
    pub fn extract(&mut self, pools: &mut ModulePools, node: NodeRef, index: usize, ret_type: TypeRef) -> (r:
        NodeRef)
        requires
            old(self).wf(old(pools)),
        ensures
            final(self).emitted_pair(
                old(self),
                old(pools),
                final(pools),
                NodeRef((old(pools).len() + 1) as usize),
                r,
            ),
            final(pools).instruction(NodeRef((old(pools).len() + 1) as usize)) == Instruction::Const(
                Const::Int32(wrap_i32(index as int % 0x1_0000_0000) as i32),
            ),
            final(pools).node(NodeRef((old(pools).len() + 1) as usize)).type_
                == Type::spec_primitive(crate::types::Primitive::Int32),
            final(pools).instruction(r) matches Instruction::Call(f, a) && f == Func::ExtractElement
                && a@ == seq![node, NodeRef((old(pools).len() + 1) as usize)],
            final(pools).node(r).type_ == ret_type,
    {
        let low: u64 = (index as u64) % 0x1_0000_0000;
        let value: i32 = if low >= 0x8000_0000 {
            ((low - 0x8000_0000) as i32) + i32::MIN
        } else {
            low as i32
        };
        let c = self.const_(pools, Const::Int32(value));
        let ghost base = *pools;
        let mut args: Vec<NodeRef> = Vec::new();
        args.push(node);
        args.push(c);
        let r = self.call(pools, Func::ExtractElement, args.as_slice(), ret_type);
        proof {
            assert forall|b: BasicBlock| b.first != self.bb.first implies #[trigger] b.kept(
                old(pools),
                pools,
            ) by {
                assert(b.kept(old(pools), &base));
                assert(b.kept(&base, pools));
            }
            assert forall|r0: NodeRef| #[trigger] old(pools).contains(r0) implies pools.node(
                r0,
            ).instruction == old(pools).node(r0).instruction && pools.node(r0).type_ == old(
                pools,
            ).node(r0).type_ by {
                assert(base.contains(r0));
            }
            assert(base.contains(c));
        }
        r
    }

    /// Whether the incoming values of a phi node of user data agree.
    pub fn userdata_phi_agrees(pools: &ModulePools, incoming: &[PhiIncoming]) -> (r: bool)
        ensures
            r == userdata_agree(pools, incoming@),
    {
        if incoming.len() == 0 {
            return false;
        }
        let first = incoming[0].value;
        if !first.valid() || first.0 > pools.node_pool.len() {
            return false;
        }
        if !first.is_user_data(pools) {
            return false;
        }
        let userdata0 = first.get_user_data(pools);
        let mut i: usize = 1;
        while i < incoming.len()
            invariant
                1 <= i <= incoming.len(),
                pools.contains(incoming@[0].value),
                first == incoming@[0].value,
                pools.instruction(first) == Instruction::UserData(*userdata0),
                forall|j: int|
                    1 <= j < i ==> {
                        &&& pools.contains((#[trigger] incoming@[j]).value)
                        &&& {
                            ||| (pools.instruction(incoming@[j].value) matches Instruction::Call(
                                f,
                                _,
                            ) && f is Unreachable)
                            ||| (pools.instruction(
                                incoming@[j].value,
                            ) matches Instruction::UserData(u) && u.agrees(*userdata0))
                        }
                    },
            decreases incoming.len() - i,
        {
            let value = incoming[i].value;
            if !value.valid() || value.0 > pools.node_pool.len() {
                assert(!pools.contains(incoming@[i as int].value));
                return false;
            }
            if !value.is_unreachable(pools) {
                if !value.is_user_data(pools) {
                    assert(pools.contains(incoming@[i as int].value));
                    return false;
                }
                let userdata = value.get_user_data(pools);
                if userdata.tag != userdata0.tag || !same_bytes(&userdata.data, &userdata0.data) {
                    assert(pools.contains(incoming@[i as int].value));
                    return false;
                }
            }
            i += 1;
        }
        true
    }

    /// Builds the merge of the incoming values.  For user data no node is
    /// built: the incoming values agree, and the first of them is the result.
    pub fn phi(&mut self, pools: &mut ModulePools, incoming: &[PhiIncoming], t: TypeRef) -> (r:
        NodeRef)
        requires
            old(self).wf(old(pools)),
            t == Type::spec_userdata() ==> userdata_agree(old(pools), incoming@),
        ensures
            t == Type::spec_userdata() ==> r == incoming@[0].value && *final(pools) == *old(pools)
                && *final(self) == *old(self),
            t != Type::spec_userdata() ==> final(self).emitted(
                old(self),
                old(pools),
                final(pools),
                r,
                t,
            ) && (final(pools).instruction(r) matches Instruction::Phi(v) && v@ == incoming@),
    {
        if t == Type::userdata() {
            return incoming[0].value;
        }
        self.emit(pools, Instruction::Phi(slice_to_vec(incoming)), t)
    }

    /// Builds the assignment of `value` to `var`, which can be assigned to.
    pub fn store(&mut self, pools: &mut ModulePools, var: NodeRef, value: NodeRef)
        requires
            old(self).wf(old(pools)),
            old(pools).contains(var),
            old(pools).instruction(var).spec_is_lvalue(),
        ensures
            final(self).emitted(
                old(self),
                old(pools),
                final(pools),
                final(self).insert_point,
                Type::spec_void(),
            ),
            final(pools).instruction(final(self).insert_point) == (Instruction::Update {
                var,
                value,
            }),
    {
        self.emit(pools, Instruction::Update { var, value }, Type::void());
    }

    /// Builds the assignment of `value` to `var`, which is a variable or a
    /// component of one.
    pub fn update(&mut self, pools: &mut ModulePools, var: NodeRef, value: NodeRef)
        requires
            old(self).wf(old(pools)),
            old(pools).contains(var),
            old(pools).instruction(var) is Local || old(pools).instruction(var).is_element_ptr(),
        ensures
            final(self).emitted(
                old(self),
                old(pools),
                final(pools),
                final(self).insert_point,
                Type::spec_void(),
            ),
            final(pools).instruction(final(self).insert_point) == (Instruction::Update {
                var,
                value,
            }),
    {
        self.emit(pools, Instruction::Update { var, value }, Type::void());
    }

    pub fn cast(&mut self, pools: &mut ModulePools, node: NodeRef, t: TypeRef) -> (r: NodeRef)
        requires
            old(self).wf(old(pools)),
        ensures
            final(self).emitted(old(self), old(pools), final(pools), r, t),
            final(pools).instruction(r) matches Instruction::Call(f, a) && f == Func::Cast && a@
                == seq![node],
    {
        let mut args: Vec<NodeRef> = Vec::new();
        args.push(node);
        self.call(pools, Func::Cast, args.as_slice(), t)
    }

    pub fn bitcast(&mut self, pools: &mut ModulePools, node: NodeRef, t: TypeRef) -> (r: NodeRef)
        requires
            old(self).wf(old(pools)),
        ensures
            final(self).emitted(old(self), old(pools), final(pools), r, t),
            final(pools).instruction(r) matches Instruction::Call(f, a) && f == Func::Bitcast && a@
                == seq![node],
    {
        let mut args: Vec<NodeRef> = Vec::new();
        args.push(node);
        self.call(pools, Func::Bitcast, args.as_slice(), t)
    }

    pub fn switch(
        &mut self,
        pools: &mut ModulePools,
        value: NodeRef,
        cases: &[SwitchCase],
        default: BasicBlock,
    )
        requires
            old(self).wf(old(pools)),
        ensures
            final(self).emitted(
                old(self),
                old(pools),
                final(pools),
                final(self).insert_point,
                Type::spec_void(),
            ),
            final(pools).instruction(final(self).insert_point) matches Instruction::Switch {
                value: v,
                default: d,
                cases: c,
            } && v == value && d == default && c@ == cases@,
    {
        self.emit(
            pools,
            Instruction::Switch { value, default, cases: slice_to_vec(cases) },
            Type::void(),
        );
    }

    pub fn if_(
        &mut self,
        pools: &mut ModulePools,
        cond: NodeRef,
        true_branch: BasicBlock,
        false_branch: BasicBlock,
    ) -> (r: NodeRef)
        requires
            old(self).wf(old(pools)),
        ensures
            final(self).emitted(old(self), old(pools), final(pools), r, Type::spec_void()),
            final(pools).instruction(r) == (Instruction::If { cond, true_branch, false_branch }),
    {
        self.emit(pools, Instruction::If { cond, true_branch, false_branch }, Type::void())
    }

    pub fn ray_query(
        &mut self,
        pools: &mut ModulePools,
        ray_query: NodeRef,
        on_triangle_hit: BasicBlock,
        on_procedural_hit: BasicBlock,
        type_: TypeRef,
    ) -> (r: NodeRef)
        requires
            old(self).wf(old(pools)),
        ensures
            final(self).emitted(old(self), old(pools), final(pools), r, type_),
            final(pools).instruction(r) == (Instruction::RayQuery {
                ray_query,
                on_triangle_hit,
                on_procedural_hit,
            }),
    {
        self.emit(
            pools,
            Instruction::RayQuery { ray_query, on_triangle_hit, on_procedural_hit },
            type_,
        )
    }

    pub fn loop_(&mut self, pools: &mut ModulePools, body: BasicBlock, cond: NodeRef) -> (r: NodeRef)
        requires
            old(self).wf(old(pools)),
        ensures
            final(self).emitted(old(self), old(pools), final(pools), r, Type::spec_void()),
            final(pools).instruction(r) == (Instruction::Loop { body, cond }),
    {
        self.emit(pools, Instruction::Loop { body, cond }, Type::void())
    }

    pub fn generic_loop(
        &mut self,
        pools: &mut ModulePools,
        prepare: BasicBlock,
        cond: NodeRef,
        body: BasicBlock,
        update: BasicBlock,
    ) -> (r: NodeRef)
        requires
            old(self).wf(old(pools)),
        ensures
            final(self).emitted(old(self), old(pools), final(pools), r, Type::spec_void()),
            final(pools).instruction(r) == (Instruction::GenericLoop {
                prepare,
                cond,
                body,
                update,
            }),
    {
        self.emit(pools, Instruction::GenericLoop { prepare, cond, body, update }, Type::void())
    }

    /// Builds the scope of automatic differentiation around `body`.
    pub fn ad_scope(&mut self, pools: &mut ModulePools, body: BasicBlock) -> (r: NodeRef)
        requires
            old(self).wf(old(pools)),
        ensures
            final(self).emitted(old(self), old(pools), final(pools), r, Type::spec_void()),
            final(pools).instruction(r) == (Instruction::AdScope { body }),
    {
        self.emit(pools, Instruction::AdScope { body }, Type::void())
    }

    /// Hands out the block that was built.
    pub fn finish(self) -> (r: BasicBlock)
        ensures
            r == self.bb,
    {
        self.bb
    }
}

} // verus!
