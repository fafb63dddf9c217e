use luisa_compute_ir::builder::IrBuilder;
use luisa_compute_ir::module::{
    Binding, BufferBinding, Capture, KernelModule, Module, ModuleKind,
};
use luisa_compute_ir::node::{Const, Func, Instruction, Node, NodeRef, SwitchCase};
use luisa_compute_ir::pool::{new_node, ModulePools};
use luisa_compute_ir::types::{Primitive, Type};
use luisa_compute_ir::usage::{
    detect_usage, luisa_compute_ir_node_usage, resource_use_of, root_of, Usage, UsageError,
    UsageMark,
};
use std::sync::Arc;

fn loose(pools: &mut ModulePools, i: Instruction) -> NodeRef {
    new_node(pools, Node::new(Arc::new(i), Type::void()))
}

fn kernel(module: Module, captures: Vec<NodeRef>, args: Vec<NodeRef>) -> KernelModule {
    KernelModule {
        module,
        captures: captures
            .into_iter()
            .map(|node| Capture {
                node,
                binding: Binding::Buffer(BufferBinding { handle: 1, offset: 0, size: 64 }),
            })
            .collect(),
        args,
        shared: vec![],
        cpu_custom_ops: vec![],
        callables: vec![],
        block_size: [1, 1, 1],
    }
}

#[test]
fn collect_visits_the_branches_in_order() {
    let mut pools = ModulePools::new();
    let mut tb = IrBuilder::new(&mut pools);
    tb.return_(&mut pools, NodeRef(0));
    let tb = tb.finish();
    let return_node = tb.nodes(&pools)[0];
    let fb = IrBuilder::new(&mut pools).finish();
    let mut builder = IrBuilder::new(&mut pools);
    let cond = builder.const_(&mut pools, Const::Bool(true));
    let if_node = builder.if_(&mut pools, cond, tb, fb);
    let entry = builder.finish();
    let module = Module::from_fragment(entry, pools);
    assert_eq!(module.kind, ModuleKind::Block);
    assert_eq!(module.collect_nodes(), vec![cond, if_node, return_node]);
}

#[test]
fn collect_is_a_preorder_over_all_nested_blocks() {
    let mut pools = ModulePools::new();
    let leaf = |pools: &mut ModulePools, v: i32| {
        let mut b = IrBuilder::new(pools);
        let n = b.const_(pools, Const::Int32(v));
        (b.finish(), n)
    };
    let (body, body_node) = leaf(&mut pools, 1);
    let (prepare, prepare_node) = leaf(&mut pools, 2);
    let (gbody, gbody_node) = leaf(&mut pools, 3);
    let (update, update_node) = leaf(&mut pools, 4);
    let (default, default_node) = leaf(&mut pools, 5);
    let (case0, case0_node) = leaf(&mut pools, 6);
    let (case1, case1_node) = leaf(&mut pools, 7);
    let (hit, hit_node) = leaf(&mut pools, 8);
    let (proc_hit, proc_node) = leaf(&mut pools, 9);
    let (scope, scope_node) = leaf(&mut pools, 10);

    let mut inner = IrBuilder::new(&mut pools);
    let inner_cond = inner.const_(&mut pools, Const::Bool(false));
    let inner_loop = inner.loop_(&mut pools, body, inner_cond);
    let inner = inner.finish();

    let mut b = IrBuilder::new(&mut pools);
    let cond = b.const_(&mut pools, Const::Bool(true));
    let outer_if = b.if_(&mut pools, cond, inner, scope);
    let generic = b.generic_loop(&mut pools, prepare, cond, gbody, update);
    b.switch(
        &mut pools,
        cond,
        &[SwitchCase { value: 0, block: case0 }, SwitchCase { value: 1, block: case1 }],
        default,
    );
    let rq = b.ray_query(&mut pools, cond, hit, proc_hit, Type::void());
    let entry = b.finish();
    let switch_node = entry.nodes(&pools)[3];
    let module = Module::from_fragment(entry, pools);
    assert_eq!(
        module.collect_nodes(),
        vec![
            cond,
            outer_if,
            inner_cond,
            inner_loop,
            body_node,
            scope_node,
            generic,
            prepare_node,
            gbody_node,
            update_node,
            switch_node,
            default_node,
            case0_node,
            case1_node,
            rq,
            hit_node,
            proc_node,
        ]
    );
}

#[test]
fn collect_visits_a_shared_block_once() {
    let mut pools = ModulePools::new();
    let mut shared = IrBuilder::new(&mut pools);
    let inside = shared.const_(&mut pools, Const::Int32(1));
    let shared = shared.finish();
    let mut b = IrBuilder::new(&mut pools);
    let cond = b.const_(&mut pools, Const::Bool(true));
    let first = b.if_(&mut pools, cond, shared, shared);
    let second = b.loop_(&mut pools, shared, cond);
    let entry = b.finish();
    let module = Module::from_fragment(entry, pools);
    assert_eq!(module.collect_nodes(), vec![cond, first, inside, second]);
}

#[test]
fn buffer_read_and_written_is_read_write() {
    let mut pools = ModulePools::new();
    let buffer = loose(&mut pools, Instruction::Buffer);
    let mut b = IrBuilder::new(&mut pools);
    let index = b.const_(&mut pools, Const::Uint32(0));
    let value = b.call(&mut pools, Func::BufferRead, &[buffer, index], Type::primitive(Primitive::Float32));
    b.call(&mut pools, Func::BufferWrite, &[buffer, index, value], Type::void());
    let entry = b.finish();
    let kernel = kernel(Module { kind: ModuleKind::Kernel, entry, pools }, vec![buffer], vec![]);
    assert_eq!(luisa_compute_ir_node_usage(&kernel), Ok(vec![3]));
}

#[test]
fn usages_of_captures_then_arguments() {
    let mut pools = ModulePools::new();
    let read = loose(&mut pools, Instruction::Buffer);
    let written = loose(&mut pools, Instruction::Texture2D);
    let both = loose(&mut pools, Instruction::Buffer);
    let arg = loose(&mut pools, Instruction::Argument { by_value: false });
    let mut b = IrBuilder::new(&mut pools);
    let index = b.const_(&mut pools, Const::Uint32(0));
    let float = Type::primitive(Primitive::Float32);
    let v = b.call(&mut pools, Func::BufferRead, &[read, index], float);
    b.call(&mut pools, Func::Texture2dWrite, &[written, index, v], Type::void());
    b.call(&mut pools, Func::AtomicFetchAdd, &[both, index, v], float);
    b.call(&mut pools, Func::Add, &[arg, v], float);
    let entry = b.finish();
    let kernel = kernel(
        Module { kind: ModuleKind::Kernel, entry, pools },
        vec![read, written, both],
        vec![arg],
    );
    assert_eq!(luisa_compute_ir_node_usage(&kernel), Ok(vec![1, 2, 3, 1]));
    let map = detect_usage(&kernel.module);
    assert_eq!(map.get(&read.0), Some(&Usage::READ));
    assert_eq!(map.get(&written.0), Some(&Usage::WRITE));
    assert_eq!(map.get(&both.0), Some(&Usage::READ_WRITE));
    assert_eq!(map.get(&arg.0), Some(&Usage::READ));
    assert_eq!(map.get(&index.0), None);
}

#[test]
fn update_writes_the_root_of_the_access_chain() {
    let mut pools = ModulePools::new();
    let arg = loose(&mut pools, Instruction::Argument { by_value: false });
    let mut b = IrBuilder::new(&mut pools);
    let int = Type::primitive(Primitive::Int32);
    let zero = b.const_(&mut pools, Const::Int32(0));
    let inner = b.call(&mut pools, Func::GetElementPtr, &[arg, zero], int);
    let outer = b.call(&mut pools, Func::GetElementPtr, &[inner, zero], int);
    b.update(&mut pools, outer, zero);
    assert_eq!(root_of(&pools, outer), arg);
    assert_eq!(root_of(&pools, zero), zero);
    let entry = b.finish();
    let kernel = kernel(Module { kind: ModuleKind::Kernel, entry, pools }, vec![], vec![arg]);
    assert_eq!(luisa_compute_ir_node_usage(&kernel), Ok(vec![2]));
}

#[test]
fn usage_inside_nested_blocks_is_found() {
    let mut pools = ModulePools::new();
    let buffer = loose(&mut pools, Instruction::Buffer);
    let mut body = IrBuilder::new(&mut pools);
    let index = body.const_(&mut pools, Const::Uint32(0));
    body.call(&mut pools, Func::BufferWrite, &[buffer, index, index], Type::void());
    let body = body.finish();
    let mut b = IrBuilder::new(&mut pools);
    let cond = b.const_(&mut pools, Const::Bool(true));
    b.loop_(&mut pools, body, cond);
    let entry = b.finish();
    let kernel = kernel(Module { kind: ModuleKind::Kernel, entry, pools }, vec![buffer], vec![]);
    assert_eq!(luisa_compute_ir_node_usage(&kernel), Ok(vec![2]));
}

#[test]
fn missing_usage_names_the_node() {
    let mut pools = ModulePools::new();
    let unused = loose(&mut pools, Instruction::Buffer);
    let used = loose(&mut pools, Instruction::Buffer);
    let mut b = IrBuilder::new(&mut pools);
    let index = b.const_(&mut pools, Const::Uint32(0));
    b.call(&mut pools, Func::BufferSize, &[used], Type::primitive(Primitive::Uint32));
    let _ = index;
    let entry = b.finish();
    let module = Module { kind: ModuleKind::Kernel, entry, pools };
    let k = kernel(module, vec![used, unused], vec![]);
    let err = luisa_compute_ir_node_usage(&k).unwrap_err();
    assert_eq!(err, UsageError::MissingResource(unused));
    assert_eq!(
        err.message(),
        format!("Requested resource {} not exist in usage map", unused.0)
    );
    let KernelModule { module, .. } = k;
    let k = kernel(module, vec![used], vec![unused]);
    let err = luisa_compute_ir_node_usage(&k).unwrap_err();
    assert_eq!(err, UsageError::MissingArgument(unused));
    assert_eq!(
        err.message(),
        format!("Requested argument {} not exist in usage map", unused.0)
    );
    let KernelModule { module, .. } = k;
    let k = kernel(module, vec![used, used], vec![]);
    assert_eq!(luisa_compute_ir_node_usage(&k), Err(UsageError::MissingResource(used)));
}

#[test]
fn marks_accumulate_to_the_least_upper_bound() {
    assert_eq!(Usage::NONE.mark(UsageMark::READ), Usage::READ);
    assert_eq!(Usage::NONE.mark(UsageMark::WRITE), Usage::WRITE);
    assert_eq!(Usage::READ.mark(UsageMark::READ), Usage::READ);
    assert_eq!(Usage::READ.mark(UsageMark::WRITE), Usage::READ_WRITE);
    assert_eq!(Usage::WRITE.mark(UsageMark::READ), Usage::READ_WRITE);
    assert_eq!(Usage::WRITE.mark(UsageMark::WRITE), Usage::WRITE);
    assert_eq!(Usage::READ_WRITE.mark(UsageMark::READ), Usage::READ_WRITE);
    assert_eq!(Usage::READ_WRITE.mark(UsageMark::WRITE), Usage::READ_WRITE);
    let marks = [UsageMark::READ, UsageMark::WRITE];
    for a in marks {
        for b in marks {
            for c in marks {
                let folded = Usage::NONE.mark(a).mark(b).mark(c);
                let reads = [a, b, c].contains(&UsageMark::READ);
                let writes = [a, b, c].contains(&UsageMark::WRITE);
                let expected = match (reads, writes) {
                    (true, true) => Usage::READ_WRITE,
                    (true, false) => Usage::READ,
                    (false, true) => Usage::WRITE,
                    (false, false) => Usage::NONE,
                };
                assert_eq!(folded, expected);
            }
        }
    }
    assert_eq!(Usage::READ.join(Usage::WRITE), Usage::READ_WRITE);
    assert_eq!(Usage::NONE.join(Usage::NONE), Usage::NONE);
    assert_eq!(Usage::WRITE.join(Usage::NONE), Usage::WRITE);
}

#[test]
fn usage_encoding() {
    assert_eq!(Usage::NONE.to_u8(), 0);
    assert_eq!(Usage::READ.to_u8(), 1);
    assert_eq!(Usage::WRITE.to_u8(), 2);
    assert_eq!(Usage::READ_WRITE.to_u8(), 3);
}

#[test]
fn classes_of_resource_operations() {
    assert_eq!(resource_use_of(&Func::BufferRead), Usage::READ);
    assert_eq!(resource_use_of(&Func::BindlessTexture3dSampleGradLevel), Usage::READ);
    assert_eq!(resource_use_of(&Func::BindlessBufferSize(Type::void())), Usage::READ);
    assert_eq!(resource_use_of(&Func::RayTracingTraceAny), Usage::READ);
    assert_eq!(resource_use_of(&Func::RayQueryCommittedHit), Usage::READ);
    assert_eq!(resource_use_of(&Func::Texture3dWrite), Usage::WRITE);
    assert_eq!(resource_use_of(&Func::RayTracingSetInstanceOpacity), Usage::WRITE);
    assert_eq!(resource_use_of(&Func::IndirectEmplaceDispatchKernel), Usage::WRITE);
    assert_eq!(resource_use_of(&Func::RasterDiscard), Usage::WRITE);
    assert_eq!(resource_use_of(&Func::AtomicCompareExchange), Usage::READ_WRITE);
    assert_eq!(resource_use_of(&Func::AtomicFetchMax), Usage::READ_WRITE);
    assert_eq!(resource_use_of(&Func::Add), Usage::NONE);
    assert_eq!(resource_use_of(&Func::GetElementPtr), Usage::NONE);
}
