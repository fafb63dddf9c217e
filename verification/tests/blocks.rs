use luisa_compute_ir::builder::IrBuilder;
use luisa_compute_ir::node::{
    invalid_ref, BasicBlock, Const, Func, Instruction, Node, NodeRef, PhiIncoming, UserData,
};
use luisa_compute_ir::pool::{new_node, ModulePools};
use luisa_compute_ir::registry::TypeRegistry;
use luisa_compute_ir::types::{Primitive, Type};
use std::sync::Arc;

fn loose(pools: &mut ModulePools, value: i32) -> NodeRef {
    new_node(
        pools,
        Node::new(
            Arc::new(Instruction::Const(Const::Int32(value))),
            Type::primitive(Primitive::Int32),
        ),
    )
}

/// Walks the block by its links and checks them against each other.
fn check_links(pools: &ModulePools, block: &BasicBlock) -> Vec<NodeRef> {
    assert_eq!(block.first.get(pools).prev, invalid_ref());
    assert_eq!(block.last.get(pools).next, invalid_ref());
    let mut seen = Vec::new();
    let mut prev = block.first;
    let mut cur = block.first.get(pools).next;
    let mut steps = 0;
    while cur != block.last {
        assert!(cur.valid());
        assert_eq!(cur.get(pools).prev, prev);
        assert_eq!(cur.get(pools).prev.get(pools).next, cur);
        assert_eq!(cur.get(pools).next.get(pools).prev, cur);
        seen.push(cur);
        prev = cur;
        cur = cur.get(pools).next;
        steps += 1;
        assert!(steps <= pools.node_pool.len());
    }
    assert_eq!(block.last.get(pools).prev, prev);
    assert_eq!(seen, block.nodes(pools));
    assert_eq!(seen.len(), block.len(pools));
    seen
}

fn block_of(pools: &mut ModulePools, values: &[i32]) -> (BasicBlock, Vec<NodeRef>) {
    let block = BasicBlock::new(pools);
    let mut nodes = Vec::new();
    for v in values {
        let n = loose(pools, *v);
        block.push(pools, n);
        nodes.push(n);
    }
    (block, nodes)
}

#[test]
fn const_local_store_in_order() {
    let mut pools = ModulePools::new();
    let mut types = TypeRegistry::new();
    let mut builder = IrBuilder::new(&mut pools);
    let c = builder.const_(&mut pools, Const::Int32(5));
    let l = builder.local(&mut pools, c);
    let seven = loose(&mut pools, 7);
    builder.store(&mut pools, l, seven);
    let block = builder.finish();
    let nodes = block.nodes(&pools);
    assert_eq!(nodes.len(), 3);
    assert_eq!(nodes[0], c);
    assert_eq!(nodes[1], l);
    assert_eq!(
        *nodes[2].instruction(&pools),
        Instruction::Update { var: l, value: seven }
    );
    assert!(l.is_lvalue(&pools));
    assert!(l.is_local(&pools));
    assert!(!c.is_lvalue(&pools));
    assert_eq!(l.type_(&pools), types.register_type(Type::Primitive(Primitive::Int32)));
    assert_eq!(nodes[2].type_(&pools), Type::void());
    check_links(&pools, &block);
}

#[test]
fn new_block_is_empty_and_linked() {
    let mut pools = ModulePools::new();
    let block = BasicBlock::new(&mut pools);
    assert_eq!(block.nodes(&pools), vec![]);
    assert_eq!(block.len(&pools), 0);
    assert_eq!(block.first.get(&pools).next, block.last);
    assert_eq!(block.last.get(&pools).prev, block.first);
    assert!(!block.is_empty(&pools));
    assert!(block.first.is_linked(&pools));
    assert_eq!(*block.first.instruction(&pools), Instruction::Invalid);
    assert_eq!(block.first.type_(&pools), Type::void());
    check_links(&pools, &block);
}

#[test]
fn push_appends_before_the_tail() {
    let mut pools = ModulePools::new();
    let (block, nodes) = block_of(&mut pools, &[1, 2, 3]);
    assert_eq!(check_links(&pools, &block), nodes);
    assert_eq!(block.last.get(&pools).prev, nodes[2]);
}

#[test]
fn remove_unlinks_a_node() {
    let mut pools = ModulePools::new();
    let (block, nodes) = block_of(&mut pools, &[1, 2, 3]);
    nodes[1].remove(&mut pools);
    assert!(!nodes[1].is_linked(&pools));
    assert_eq!(nodes[1].get(&pools).next, invalid_ref());
    assert_eq!(nodes[1].get(&pools).prev, invalid_ref());
    assert_eq!(check_links(&pools, &block), vec![nodes[0], nodes[2]]);
}

#[test]
fn insert_before_and_after() {
    let mut pools = ModulePools::new();
    let (block, nodes) = block_of(&mut pools, &[1, 3]);
    let two = loose(&mut pools, 2);
    nodes[0].insert_after_self(&mut pools, two);
    let zero = loose(&mut pools, 0);
    nodes[0].insert_before_self(&mut pools, zero);
    let four = loose(&mut pools, 4);
    block.last.insert_before_self(&mut pools, four);
    assert_eq!(check_links(&pools, &block), vec![zero, nodes[0], two, nodes[1], four]);
}

#[test]
fn into_vec_drains_the_block() {
    let mut pools = ModulePools::new();
    let (block, nodes) = block_of(&mut pools, &[1, 2, 3]);
    let (other, other_nodes) = block_of(&mut pools, &[9]);
    let drained = block.into_vec(&mut pools);
    assert_eq!(drained, nodes);
    for n in &drained {
        assert!(!n.is_linked(&pools));
    }
    assert_eq!(check_links(&pools, &block), vec![]);
    assert_eq!(check_links(&pools, &other), other_nodes);
}

#[test]
fn merge_moves_the_nodes_in_order() {
    let mut pools = ModulePools::new();
    let (a, a_nodes) = block_of(&mut pools, &[1, 2]);
    let (b, b_nodes) = block_of(&mut pools, &[3, 4, 5]);
    a.merge(&mut pools, b);
    let mut expected = a_nodes.clone();
    expected.extend(b_nodes);
    assert_eq!(check_links(&pools, &a), expected);
    assert_eq!(check_links(&pools, &b), vec![]);
}

#[test]
fn merging_a_block_into_itself_keeps_it() {
    let mut pools = ModulePools::new();
    let (a, a_nodes) = block_of(&mut pools, &[1, 2, 3]);
    a.merge(&mut pools, a);
    assert_eq!(check_links(&pools, &a), a_nodes);
}

#[test]
fn split_keeps_the_node_and_moves_the_rest() {
    let mut pools = ModulePools::new();
    let (a, nodes) = block_of(&mut pools, &[1, 2, 3, 4]);
    let b = a.split(nodes[1], &mut pools);
    assert_eq!(check_links(&pools, &a), vec![nodes[0], nodes[1]]);
    assert_eq!(check_links(&pools, &b), vec![nodes[2], nodes[3]]);
    assert_eq!(pools.bb_pool.len(), 1);
    assert_eq!(*pools.bb_pool.get(0), b);
}

#[test]
fn split_at_the_last_node_gives_an_empty_block() {
    let mut pools = ModulePools::new();
    let (a, nodes) = block_of(&mut pools, &[1, 2]);
    let b = a.split(nodes[1], &mut pools);
    assert_eq!(check_links(&pools, &a), nodes);
    assert_eq!(check_links(&pools, &b), vec![]);
}

#[test]
fn split_at_the_head_moves_everything() {
    let mut pools = ModulePools::new();
    let (a, nodes) = block_of(&mut pools, &[1, 2]);
    let b = a.split(a.first, &mut pools);
    assert_eq!(check_links(&pools, &a), vec![]);
    assert_eq!(check_links(&pools, &b), nodes);
}

#[test]
fn split_then_merge_gives_the_block_back() {
    for at in 0..5 {
        let mut pools = ModulePools::new();
        let (a, nodes) = block_of(&mut pools, &[1, 2, 3, 4, 5]);
        let b = a.split(nodes[at], &mut pools);
        a.merge(&mut pools, b);
        assert_eq!(check_links(&pools, &a), nodes);
        assert_eq!(check_links(&pools, &b), vec![]);
    }
}

#[test]
fn phis_are_the_phi_nodes() {
    let mut pools = ModulePools::new();
    let mut builder = IrBuilder::new(&mut pools);
    let c = builder.const_(&mut pools, Const::Bool(true));
    let incoming = [PhiIncoming { value: c, block: BasicBlock { first: c, last: c } }];
    let first_phi = builder.phi(&mut pools, &incoming, Type::primitive(Primitive::Bool));
    let _ = builder.break_(&mut pools);
    let second_phi = builder.phi(&mut pools, &[], Type::primitive(Primitive::Int32));
    let block = builder.finish();
    assert_eq!(block.phis(&pools), vec![first_phi, second_phi]);
    assert!(first_phi.is_phi(&pools));
    assert!(first_phi.instruction(&pools).has_value());
    assert!(!c.is_phi(&pools));
    assert_eq!(*first_phi.instruction(&pools), Instruction::Phi(incoming.to_vec()));
}

#[test]
fn builder_appends_at_the_insertion_point() {
    let mut pools = ModulePools::new();
    let mut builder = IrBuilder::new(&mut pools);
    let a = builder.const_(&mut pools, Const::Int32(1));
    let b = builder.const_(&mut pools, Const::Int32(2));
    builder.set_insert_point(a);
    let c = builder.const_(&mut pools, Const::Int32(3));
    let d = builder.const_(&mut pools, Const::Int32(4));
    let block = builder.finish();
    assert_eq!(check_links(&pools, &block), vec![a, c, d, b]);
}

#[test]
fn builder_operations_build_what_they_say() {
    let mut pools = ModulePools::new();
    let mut builder = IrBuilder::new(&mut pools);
    let int = Type::primitive(Primitive::Int32);
    let float = Type::primitive(Primitive::Float32);
    let a = builder.const_(&mut pools, Const::Uint32(7));
    assert_eq!(a.type_(&pools), Type::primitive(Primitive::Uint32));
    assert!(a.is_const(&pools));
    let call = builder.call(&mut pools, Func::Add, &[a, a], int);
    assert_eq!(*call.instruction(&pools), Instruction::Call(Func::Add, vec![a, a]));
    assert_eq!(call.type_(&pools), int);
    assert!(call.instruction(&pools).is_call());
    let cast = builder.cast(&mut pools, a, float);
    assert_eq!(*cast.instruction(&pools), Instruction::Call(Func::Cast, vec![a]));
    assert_eq!(cast.type_(&pools), float);
    let bitcast = builder.bitcast(&mut pools, a, float);
    assert_eq!(*bitcast.instruction(&pools), Instruction::Call(Func::Bitcast, vec![a]));
    let zero = builder.zero_initializer(&mut pools, int);
    assert_eq!(*zero.instruction(&pools), Instruction::Call(Func::ZeroInitializer, vec![]));
    let local = builder.local_zero_init(&mut pools, float);
    assert!(local.is_local(&pools));
    assert_eq!(local.type_(&pools), float);
    let init = match local.instruction(&pools) {
        Instruction::Local { init } => *init,
        other => panic!("not a local: {:?}", other),
    };
    assert_eq!(*init.instruction(&pools), Instruction::Call(Func::ZeroInitializer, vec![]));
    assert_eq!(init.type_(&pools), float);
    let grad = builder.gradient(&mut pools, cast);
    assert_eq!(grad.type_(&pools), float);
    assert_eq!(*grad.instruction(&pools), Instruction::Call(Func::Gradient, vec![cast]));
    let req = builder.requires_gradient(&mut pools, cast);
    assert_eq!(req.type_(&pools), Type::void());
    let copy = builder.clone_node(&mut pools, call);
    assert_ne!(copy, call);
    assert_eq!(copy.instruction(&pools), call.instruction(&pools));
    assert!(Arc::ptr_eq(&copy.get(&pools).instruction, &call.get(&pools).instruction));
    assert_eq!(copy.type_(&pools), int);
    let ex = builder.extract(&mut pools, call, 2, int);
    let index = match ex.instruction(&pools) {
        Instruction::Call(Func::ExtractElement, args) => {
            assert_eq!(args[0], call);
            args[1]
        }
        other => panic!("not an extraction: {:?}", other),
    };
    assert_eq!(index.get_i32(&pools), 2);
    builder.update(&mut pools, local, a);
    let brk = builder.break_(&mut pools);
    assert_eq!(*brk.instruction(&pools), Instruction::Break);
    let cont = builder.continue_(&mut pools);
    assert_eq!(*cont.instruction(&pools), Instruction::Continue);
    builder.return_(&mut pools, a);
    let block = builder.finish();
    let nodes = check_links(&pools, &block);
    assert_eq!(nodes.len(), 16);
    assert_eq!(*nodes[15].instruction(&pools), Instruction::Return(a));
    assert_eq!(*nodes[12].instruction(&pools), Instruction::Update { var: local, value: a });
}

#[test]
fn phi_of_user_data_returns_the_first_value() {
    let mut pools = ModulePools::new();
    let user = |pools: &mut ModulePools, tag: u64, data: Vec<u8>| {
        new_node(
            pools,
            Node::new(Arc::new(Instruction::UserData(UserData { tag, data })), Type::userdata()),
        )
    };
    let a = user(&mut pools, 1, vec![1, 2]);
    let b = user(&mut pools, 1, vec![1, 2]);
    let c = user(&mut pools, 1, vec![3]);
    let d = user(&mut pools, 2, vec![1, 2]);
    let unreachable = new_node(
        &mut pools,
        Node::new(
            Arc::new(Instruction::Call(Func::Unreachable(vec![]), vec![])),
            Type::userdata(),
        ),
    );
    let mut builder = IrBuilder::new(&mut pools);
    let block = BasicBlock { first: a, last: a };
    let inc = |value| PhiIncoming { value, block };
    assert!(IrBuilder::userdata_phi_agrees(&pools, &[inc(a), inc(b), inc(unreachable)]));
    assert!(!IrBuilder::userdata_phi_agrees(&pools, &[inc(a), inc(c)]));
    assert!(!IrBuilder::userdata_phi_agrees(&pools, &[inc(a), inc(d)]));
    assert!(!IrBuilder::userdata_phi_agrees(&pools, &[inc(unreachable), inc(a)]));
    assert!(!IrBuilder::userdata_phi_agrees(&pools, &[]));
    assert!(!IrBuilder::userdata_phi_agrees(&pools, &[inc(a), inc(NodeRef(0))]));
    let before = pools.node_pool.len();
    let r = builder.phi(&mut pools, &[inc(a), inc(b), inc(unreachable)], Type::userdata());
    assert_eq!(r, a);
    assert_eq!(pools.node_pool.len(), before);
    assert!(a.is_user_data(&pools));
    assert_eq!(a.get_user_data(&pools).tag, 1);
    assert!(unreachable.is_unreachable(&pools));
}

#[test]
fn append_block_moves_the_nodes_and_the_insertion_point() {
    let mut pools = ModulePools::new();
    let (other, other_nodes) = block_of(&mut pools, &[8, 9]);
    let mut builder = IrBuilder::new(&mut pools);
    let a = builder.const_(&mut pools, Const::Int32(1));
    builder.append_block(&mut pools, other);
    let b = builder.const_(&mut pools, Const::Int32(2));
    let block = builder.finish();
    assert_eq!(check_links(&pools, &block), vec![a, other_nodes[0], other_nodes[1], b]);
    assert_eq!(check_links(&pools, &other), vec![]);
}

#[test]
fn constants_as_integers() {
    assert_eq!(Const::Int32(-4).get_i32(), -4);
    assert_eq!(Const::Uint32(5).get_i32(), 5);
    assert_eq!(Const::Uint32(u32::MAX).get_i32(), -1);
    assert_eq!(Const::Uint32(0x8000_0000).get_i32(), i32::MIN);
    let int = Type::primitive(Primitive::Int32);
    assert_eq!(Const::One(int).get_i32(), 1);
    assert_eq!(Const::Zero(Type::primitive(Primitive::Uint64)).get_i32(), 0);
    assert_eq!(Const::Generic((-77i32).to_le_bytes().to_vec(), int).get_i32(), -77);
    assert_eq!(Const::Generic(vec![1, 2, 3, 4], int).get_i32(), 0x0403_0201);
    assert_eq!(Const::Bool(true).type_(), Type::primitive(Primitive::Bool));
    assert_eq!(Const::Float32(0).type_(), Type::primitive(Primitive::Float32));
    assert_eq!(Const::Float64(0).type_(), Type::primitive(Primitive::Float64));
    assert_eq!(Const::Int64(0).type_(), Type::primitive(Primitive::Int64));
    assert_eq!(Const::Uint64(0).type_(), Type::primitive(Primitive::Uint64));
    assert_eq!(Const::Generic(vec![], Type::void()).type_(), Type::void());
}

#[test]
fn access_chain_follows_the_addressing() {
    let mut pools = ModulePools::new();
    let mut builder = IrBuilder::new(&mut pools);
    let int = Type::primitive(Primitive::Int32);
    let float = Type::primitive(Primitive::Float32);
    let var = builder.local_zero_init(&mut pools, int);
    let one = builder.const_(&mut pools, Const::Int32(1));
    let two = builder.const_(&mut pools, Const::Uint32(2));
    let inner = builder.call(&mut pools, Func::GetElementPtr, &[var, one], float);
    let outer = builder.call(&mut pools, Func::GetElementPtr, &[inner, two], int);
    assert_eq!(var.access_chain(&pools), None);
    assert_eq!(inner.access_chain(&pools), Some((var, vec![(float, 1)])));
    assert_eq!(outer.access_chain(&pools), Some((var, vec![(float, 1), (int, 2)])));
    assert!(outer.is_lvalue(&pools));
    let minus = builder.const_(&mut pools, Const::Int32(-1));
    let wrapped = builder.call(&mut pools, Func::GetElementPtr, &[var, minus], int);
    assert_eq!(wrapped.access_chain(&pools), Some((var, vec![(int, usize::MAX)])));
}

#[test]
fn node_kinds() {
    let mut pools = ModulePools::new();
    let make = |pools: &mut ModulePools, i: Instruction| {
        new_node(pools, Node::new(Arc::new(i), Type::void()))
    };
    let uniform = make(&mut pools, Instruction::Uniform);
    let by_value = make(&mut pools, Instruction::Argument { by_value: true });
    let by_ref = make(&mut pools, Instruction::Argument { by_value: false });
    assert!(uniform.is_uniform(&pools));
    assert!(!uniform.is_argument(&pools));
    assert!(by_value.is_argument(&pools));
    assert!(by_value.is_value_argument(&pools));
    assert!(!by_value.is_refernece_argument(&pools));
    assert!(by_ref.is_refernece_argument(&pools));
    assert!(!by_value.is_lvalue(&pools));
    assert!(by_ref.is_lvalue(&pools));
    assert!(!uniform.is_linked(&pools));
    assert!(!NodeRef(0).valid());
    assert!(uniform.valid());
    assert!(pools.has(uniform));
    assert!(!pools.has(NodeRef(0)));
    assert!(!pools.has(NodeRef(99)));
    by_ref.set(&mut pools, Node::new(Arc::new(Instruction::Buffer), Type::void()));
    assert_eq!(*by_ref.instruction(&pools), Instruction::Buffer);
}
