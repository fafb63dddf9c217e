//! The operations offered to the host runtime, under the names by which the
//! host knows them.

use crate::builder::IrBuilder;
use crate::module::{BlockModule, CallableModule, KernelModule};
use crate::node::{BasicBlock, CallableModuleRef, Const, Func, Instruction, Node, NodeRef};
use crate::pool::{new_node, ModulePools};
use crate::registry::TypeRef;
use crate::types::Type;
use std::sync::Arc;
use vstd::prelude::*;

verus! {

/// Moves a node that is not linked into the pool.
pub fn luisa_compute_ir_new_node(pools: &mut ModulePools, node: Node) -> (r: NodeRef)
    requires
        old(pools).wf(),
        node.next == NodeRef(0),
        node.prev == NodeRef(0),
    ensures
        final(pools).node_pool@ == old(pools).node_pool@.push(node),
        final(pools).bb_pool == old(pools).bb_pool,
        r.0 == old(pools).len() + 1,
        final(pools).wf(),
        final(pools).extends(old(pools)),
{
    new_node(pools, node)
}

/// The node behind a handle.
pub fn luisa_compute_ir_node_get<'a>(pools: &'a ModulePools, node_ref: NodeRef) -> (node: &'a Node)
    requires
        pools.contains(node_ref),
    ensures
        *node == pools.node(node_ref),
{
    node_ref.get(pools)
}

/// Links a node in at the insertion point of the builder.
pub fn luisa_compute_ir_append_node(
    builder: &mut IrBuilder,
    pools: &mut ModulePools,
    node_ref: NodeRef,
)
    requires
        old(builder).wf(old(pools)),
        old(pools).contains(node_ref),
        !old(pools).linked(node_ref),
    ensures
        final(builder).appended(old(builder), old(pools), final(pools), node_ref),
        final(pools).same_payload(old(pools)),
{
    builder.append(pools, node_ref)
}

/// Builds the call of an intrinsic.
pub fn luisa_compute_ir_build_call(
    builder: &mut IrBuilder,
    pools: &mut ModulePools,
    func: Func,
    args: &[NodeRef],
    ret_type: TypeRef,
) -> (r: NodeRef)
    requires
        old(builder).wf(old(pools)),
    ensures
        final(builder).emitted(old(builder), old(pools), final(pools), r, ret_type),
        final(pools).instruction(r) matches Instruction::Call(f, a) && f == func && a@ == args@,
{
    builder.call(pools, func, args, ret_type)
}

/// Builds a constant.
pub fn luisa_compute_ir_build_const(
    builder: &mut IrBuilder,
    pools: &mut ModulePools,
    const_: Const,
) -> (r: NodeRef)
    requires
        old(builder).wf(old(pools)),
    ensures
        final(builder).emitted(old(builder), old(pools), final(pools), r, const_.spec_type()),
        final(pools).instruction(r) == Instruction::Const(const_),
{
    builder.const_(pools, const_)
}

/// Builds the assignment of `value` to the variable `var`.
pub fn luisa_compute_ir_build_update(
    builder: &mut IrBuilder,
    pools: &mut ModulePools,
    var: NodeRef,
    value: NodeRef,
)
    requires
        old(builder).wf(old(pools)),
        old(pools).contains(var),
        old(pools).instruction(var) is Local || old(pools).instruction(var).is_element_ptr(),
    ensures
        final(builder).emitted(
            old(builder),
            old(pools),
            final(pools),
            final(builder).insert_point,
            Type::spec_void(),
        ),
        final(pools).instruction(final(builder).insert_point) == (Instruction::Update {
            var,
            value,
        }),
{
    builder.update(pools, var, value)
}

/// Builds a variable whose initial value is `init`.
pub fn luisa_compute_ir_build_local(
    builder: &mut IrBuilder,
    pools: &mut ModulePools,
    init: NodeRef,
) -> (r: NodeRef)
    requires
        old(builder).wf(old(pools)),
        old(pools).contains(init),
    ensures
        final(builder).emitted(
            old(builder),
            old(pools),
            final(pools),
            r,
            old(pools).node(init).type_,
        ),
        final(pools).instruction(r) == (Instruction::Local { init }),
{
    builder.local(pools, init)
}

/// Builds the zero value of `ty` and a variable initialised with it.
pub fn luisa_compute_ir_build_local_zero_init(
    builder: &mut IrBuilder,
    pools: &mut ModulePools,
    ty: TypeRef,
) -> (r: NodeRef)
    requires
        old(builder).wf(old(pools)),
    ensures
        final(builder).emitted_pair(
            old(builder),
            old(pools),
            final(pools),
            NodeRef((old(pools).len() + 1) as usize),
            r,
        ),
        final(pools).instruction(r) == (Instruction::Local {
            init: NodeRef((old(pools).len() + 1) as usize),
        }),
        final(pools).node(r).type_ == ty,
{
    builder.local_zero_init(pools, ty)
}

/// Empty pools: no node and no block is in them.
pub fn luisa_compute_ir_new_module_pools() -> (pools: ModulePools)
    ensures
        pools.node_pool@ == Seq::<Node>::empty(),
        pools.bb_pool@ == Seq::<BasicBlock>::empty(),
        pools.len() == 0,
        pools.wf(),
{
    let pools = ModulePools::new();
    assert(pools.node_pool@ =~= Seq::<Node>::empty());
    assert(pools.bb_pool@ =~= Seq::<BasicBlock>::empty());
    pools
}

/// A builder of a new, empty block.
pub fn luisa_compute_ir_new_builder(pools: &mut ModulePools) -> (b: IrBuilder)
    requires
        old(pools).wf(),
    ensures
        b.wf(final(pools)),
        b.nodes(final(pools)) == Seq::<NodeRef>::empty(),
        final(pools).extends(old(pools)),
        crate::block::all_kept(old(pools), final(pools)),
{
    IrBuilder::new(pools)
}

/// Hands out the block that the builder built.
pub fn luisa_compute_ir_build_finish(builder: IrBuilder) -> (r: BasicBlock)
    ensures
        r == builder.bb,
{
    builder.finish()
}

/// An instruction that nodes can share.
pub fn luisa_compute_ir_new_instruction(inst: Instruction) -> (r: Arc<Instruction>)
    ensures
        *r == inst,
{
    Arc::new(inst)
}

/// Adds a callable to the callables of a program and returns its handle:
/// its position among them.
pub fn luisa_compute_ir_new_callable_module(
    callables: &mut Vec<CallableModule>,
    m: CallableModule,
) -> (r: CallableModuleRef)
    ensures
        final(callables)@ == old(callables)@.push(m),
        r.0 == old(callables)@.len(),
{
    callables.push(m);
    CallableModuleRef(callables.len() - 1)
}

/// A kernel that can be shared.
pub fn luisa_compute_ir_new_kernel_module(m: KernelModule) -> (r: Arc<KernelModule>)
    ensures
        *r == m,
{
    Arc::new(m)
}

/// A block module that can be shared.
pub fn luisa_compute_ir_new_block_module(m: BlockModule) -> (r: Arc<BlockModule>)
    ensures
        *r == m,
{
    Arc::new(m)
}

} // verus!
