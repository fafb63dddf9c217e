use luisa_compute_ir::block::BasicBlockIter;
use luisa_compute_ir::builder::IrBuilder;
use luisa_compute_ir::module::{Module, ModuleKind};
use luisa_compute_ir::node::{BasicBlock, Const, Instruction, Node, NodeRef, SwitchCase};
use luisa_compute_ir::pool::{new_node, ModulePools};
use luisa_compute_ir::types::Type;
use std::sync::Arc;

fn three(pools: &mut ModulePools) -> (BasicBlock, Vec<NodeRef>) {
    let mut b = IrBuilder::new(pools);
    let nodes = vec![
        b.const_(pools, Const::Int32(1)),
        b.const_(pools, Const::Int32(2)),
        b.const_(pools, Const::Int32(3)),
    ];
    (b.finish(), nodes)
}

#[test]
fn sound_pools_and_blocks_pass() {
    let mut pools = ModulePools::new();
    assert!(pools.is_wf());
    let (block, nodes) = three(&mut pools);
    assert!(pools.is_wf());
    assert!(block.is_wf(&pools));
    assert_eq!(block.checked_nodes(&pools), Some(nodes.clone()));
    let empty = BasicBlock::new(&mut pools);
    assert_eq!(empty.checked_nodes(&pools), Some(vec![]));
    let builder = IrBuilder { bb: block, insert_point: nodes[1] };
    assert!(builder.is_wf(&pools));
    let at_head = IrBuilder { bb: block, insert_point: block.first };
    assert!(at_head.is_wf(&pools));
    let elsewhere = IrBuilder { bb: block, insert_point: empty.first };
    assert!(!elsewhere.is_wf(&pools));
    let _: BasicBlockIter = block.iter(&pools);
}

#[test]
fn broken_links_are_found() {
    let mut pools = ModulePools::new();
    let (block, nodes) = three(&mut pools);
    nodes[1].get_mut(&mut pools).prev = nodes[2];
    assert!(!pools.is_wf());
    assert!(block.is_wf(&pools));
    nodes[1].get_mut(&mut pools).prev = nodes[0];
    assert!(pools.is_wf());
    nodes[2].get_mut(&mut pools).next = nodes[0];
    assert!(!pools.is_wf());
    assert!(!block.is_wf(&pools));
    assert_eq!(block.checked_nodes(&pools), None);
    nodes[2].get_mut(&mut pools).next = NodeRef(0);
    assert!(!block.is_wf(&pools));
    nodes[2].get_mut(&mut pools).next = NodeRef(99);
    assert!(!block.is_wf(&pools));
    assert!(!pools.is_wf());
    nodes[2].get_mut(&mut pools).next = block.first;
    assert!(!block.is_wf(&pools));
}

#[test]
fn blocks_that_are_no_blocks_are_refused() {
    let mut pools = ModulePools::new();
    let (block, nodes) = three(&mut pools);
    assert!(!BasicBlock { first: block.first, last: block.first }.is_wf(&pools));
    assert!(!BasicBlock { first: NodeRef(0), last: block.last }.is_wf(&pools));
    assert!(!BasicBlock { first: block.first, last: NodeRef(77) }.is_wf(&pools));
    assert!(!BasicBlock { first: nodes[0], last: block.last }.is_wf(&pools));
    assert!(!BasicBlock { first: block.first, last: nodes[2] }.is_wf(&pools));
    assert!(!BasicBlock { first: block.last, last: block.first }.is_wf(&pools));
    let other = BasicBlock::new(&mut pools);
    assert!(!BasicBlock { first: block.first, last: other.last }.is_wf(&pools));
}

#[test]
fn modules_are_checked_with_their_nested_blocks() {
    let mut pools = ModulePools::new();
    let (body, _) = three(&mut pools);
    let mut b = IrBuilder::new(&mut pools);
    let cond = b.const_(&mut pools, Const::Bool(true));
    b.loop_(&mut pools, body, cond);
    b.switch(&mut pools, cond, &[SwitchCase { value: 1, block: body }], body);
    let entry = b.finish();
    let module = Module { kind: ModuleKind::Block, entry, pools };
    assert!(module.is_wf());
    assert_eq!(module.collect_nodes().len(), 6);

    let mut pools = ModulePools::new();
    let (body, nodes) = three(&mut pools);
    let mut b = IrBuilder::new(&mut pools);
    let cond = b.const_(&mut pools, Const::Bool(true));
    b.switch(
        &mut pools,
        cond,
        &[SwitchCase { value: 1, block: BasicBlock { first: nodes[0], last: body.last } }],
        body,
    );
    let entry = b.finish();
    let module = Module { kind: ModuleKind::Block, entry, pools };
    assert!(!module.is_wf());

    let mut pools = ModulePools::new();
    let entry = IrBuilder::new(&mut pools).finish();
    let loose = new_node(
        &mut pools,
        Node::new(
            Arc::new(Instruction::AdDetach(BasicBlock { first: NodeRef(0), last: NodeRef(0) })),
            Type::void(),
        ),
    );
    assert!(loose.valid());
    let module = Module { kind: ModuleKind::Block, entry, pools };
    assert!(!module.is_wf());
}
