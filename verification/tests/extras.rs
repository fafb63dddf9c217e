use luisa_compute_ir::block::BasicBlockIter;
use luisa_compute_ir::boundary::{
    luisa_compute_ir_append_node, luisa_compute_ir_build_call, luisa_compute_ir_build_const,
    luisa_compute_ir_build_finish, luisa_compute_ir_build_local,
    luisa_compute_ir_build_local_zero_init, luisa_compute_ir_build_update,
    luisa_compute_ir_new_block_module, luisa_compute_ir_new_builder,
    luisa_compute_ir_new_callable_module, luisa_compute_ir_new_instruction,
    luisa_compute_ir_new_kernel_module, luisa_compute_ir_new_module_pools,
    luisa_compute_ir_new_node, luisa_compute_ir_node_get,
};
use luisa_compute_ir::builder::IrBuilder;
use luisa_compute_ir::decode::{decode_const_data, fragments_to_string, Fragment};
use luisa_compute_ir::module::{BlockModule, CallableModule, KernelModule, Module, ModuleKind};
use luisa_compute_ir::node::{
    BasicBlock, CallableModuleRef, Const, Func, Instruction, Node, NodeRef,
};
use luisa_compute_ir::pool::{ModulePools, Pool};
use luisa_compute_ir::toolchain::{
    bitcode_name, clang_args, compile_args, strip_verbatim_prefix, TargetArch,
};
use luisa_compute_ir::types::{
    ArrayType, MatrixType, Primitive, StructType, Type, VectorElementType, VectorType,
};
use luisa_compute_ir::userdata::{new_user_node, UserNodeData};
use std::sync::Arc;

fn vector(p: Primitive, n: u32) -> VectorType {
    VectorType { element: VectorElementType::Scalar(p), length: n }
}

#[test]
fn texts_of_types() {
    assert_eq!(Primitive::Bool.to_string(), "bool");
    assert_eq!(Primitive::Int16.to_string(), "i16");
    assert_eq!(Primitive::Uint16.to_string(), "u16");
    assert_eq!(Primitive::Int32.to_string(), "i32");
    assert_eq!(Primitive::Uint32.to_string(), "u32");
    assert_eq!(Primitive::Int64.to_string(), "i64");
    assert_eq!(Primitive::Uint64.to_string(), "u64");
    assert_eq!(Primitive::Float32.to_string(), "f32");
    assert_eq!(Primitive::Float64.name(), "f64");
    assert_eq!(Type::Void.to_string(), "void");
    assert_eq!(Type::UserData.to_string(), "userdata");
    assert_eq!(Type::Opaque("Accel".to_string()).to_string(), "Accel");
    assert_eq!(vector(Primitive::Float32, 3).to_string(), "Vec<f32;3>");
    assert_eq!(Type::Vector(vector(Primitive::Float32, 16)).to_string(), "Vec<f32;16>");
    let nested =
        VectorType { element: VectorElementType::Vector(Box::new(vector(Primitive::Int32, 2))), length: 4 };
    assert_eq!(nested.to_string(), "Vec<Vec<i32;2>;4>");
    assert_eq!(nested.element.to_string(), "Vec<i32;2>");
    let m = MatrixType { element: VectorElementType::Scalar(Primitive::Float32), dimension: 4 };
    assert_eq!(m.to_string(), "Mat<f32;4>");
    let s = StructType {
        fields: vec![Type::Primitive(Primitive::Int32), Type::Vector(vector(Primitive::Bool, 2))],
        alignment: 4,
        size: 8,
    };
    assert_eq!(s.to_string(), "Struct<i32,Vec<bool;2>,>");
    let a = ArrayType { element: Box::new(Type::Struct(s)), length: 10 };
    assert_eq!(a.to_string(), "Arr<Struct<i32,Vec<bool;2>,>; 10>");
    assert_eq!(Type::Array(a).to_string(), "Arr<Struct<i32,Vec<bool;2>,>; 10>");
    let empty = StructType { fields: vec![], alignment: 1, size: 0 };
    assert_eq!(Type::Struct(empty).to_string(), "Struct<>");
}

#[test]
fn plain_text_of_fragments() {
    let ints = Type::Vector(vector(Primitive::Int32, 2));
    let data: Vec<u8> = [10i32, -20].iter().flat_map(|v| v.to_le_bytes()).collect();
    let fragments = decode_const_data(&data, &ints);
    assert_eq!(fragments_to_string(&fragments), Some("lc_int2(10, -20)".to_string()));
    let floats = decode_const_data(&1.0f32.to_le_bytes(), &Type::Primitive(Primitive::Float32));
    assert_eq!(fragments_to_string(&floats), None);
    assert_eq!(fragments_to_string(&vec![]), Some(String::new()));
    assert_eq!(
        fragments_to_string(&vec![Fragment::Text("a".to_string()), Fragment::Text("b".to_string())]),
        Some("ab".to_string())
    );
}

#[test]
fn flags_of_the_compiler() {
    let common = |arch: &[&'static str]| -> Vec<&'static str> {
        let mut v = vec!["-march=native", "-std=c++20", "-fno-math-errno"];
        v.extend_from_slice(arch);
        v.extend_from_slice(&["-ffast-math", "-fno-rtti", "-fno-exceptions", "-fno-stack-protector"]);
        v
    };
    let x86 = ["-mavx2", "-DLUISA_ARCH_X86_64"];
    let mut expected = vec!["-O3"];
    expected.extend(common(&x86));
    assert_eq!(clang_args(None, TargetArch::X86_64), expected);
    assert_eq!(clang_args(Some("0"), TargetArch::X86_64), expected);
    let mut expected = vec!["-DLUISA_DEBUG"];
    expected.extend(common(&x86));
    assert_eq!(clang_args(Some("1"), TargetArch::X86_64), expected);
    let mut expected = vec!["-DLUISA_DEBUG", "-DLUISA_DEBUG_FULL", "-O3"];
    expected.extend(common(&["-DLUISA_ARCH_ARM64"]));
    assert_eq!(clang_args(Some("full"), TargetArch::Aarch64), expected);
    assert_eq!(bitcode_name("Aabc"), "Aabc.bc");
    let all = compile_args(None, TargetArch::Aarch64, "-", "k.bc");
    assert_eq!(all[..9], clang_args(None, TargetArch::Aarch64)[..]);
    assert_eq!(all[9..], ["-c", "-emit-llvm", "-x", "c++", "-", "-o", "k.bc"]);
}

#[test]
fn payloads_of_user_types() {
    assert_eq!(<usize as UserNodeData>::tag(), 1);
    assert_eq!(<u32 as UserNodeData>::tag(), 2);
    assert_eq!(<u64 as UserNodeData>::tag(), 3);
    assert_eq!(<i32 as UserNodeData>::tag(), 4);
    assert_eq!(<i64 as UserNodeData>::tag(), 5);
    assert_eq!(<bool as UserNodeData>::tag(), 6);
    assert_eq!(0x0102_0304u32.to_payload(), 0x0102_0304u32.to_le_bytes());
    assert_eq!(u64::MAX.to_payload(), u64::MAX.to_le_bytes());
    assert_eq!(77usize.to_payload(), 77u64.to_le_bytes());
    assert_eq!((-2i32).to_payload(), (-2i32).to_le_bytes());
    assert_eq!(i32::MIN.to_payload(), i32::MIN.to_le_bytes());
    assert_eq!(i64::MIN.to_payload(), i64::MIN.to_le_bytes());
    assert_eq!((-1i64).to_payload(), (-1i64).to_le_bytes());
    assert_eq!(5i64.to_payload(), 5i64.to_le_bytes());
    assert_eq!(true.to_payload(), [1]);
    assert_eq!(false.to_payload(), [0]);
    assert!(UserNodeData::equal(&3u32, &3u32));
    assert!(!UserNodeData::equal(&3u32, &4u32));
    assert!(UserNodeData::equal(&true, &true));
    assert!(!UserNodeData::equal(&-1i64, &1i64));
}

#[test]
fn user_nodes_carry_tag_and_bytes() {
    let mut pools = ModulePools::new();
    let a = new_user_node(&mut pools, 42u32);
    let b = new_user_node(&mut pools, 42u32);
    let c = new_user_node(&mut pools, 42i32);
    assert!(a.is_user_data(&pools));
    assert!(!a.is_linked(&pools));
    assert_eq!(a.type_(&pools), Type::userdata());
    assert_eq!(a.get_user_data(&pools), b.get_user_data(&pools));
    assert_ne!(a.get_user_data(&pools), c.get_user_data(&pools));
    assert_eq!(a.get_user_data(&pools).tag, 2);
    assert_eq!(*a.unwrap_user_data::<u32>(&pools), 42u32.to_le_bytes());
    let block = BasicBlock { first: a, last: a };
    let incoming = [
        luisa_compute_ir::node::PhiIncoming { value: a, block },
        luisa_compute_ir::node::PhiIncoming { value: b, block },
    ];
    assert!(IrBuilder::userdata_phi_agrees(&pools, &incoming));
    let mixed = [
        luisa_compute_ir::node::PhiIncoming { value: a, block },
        luisa_compute_ir::node::PhiIncoming { value: c, block },
    ];
    assert!(!IrBuilder::userdata_phi_agrees(&pools, &mixed));
}

#[test]
fn iterator_hands_out_the_nodes() {
    let mut pools = ModulePools::new();
    let mut builder = IrBuilder::new(&mut pools);
    let a = builder.const_(&mut pools, Const::Int32(1));
    let b = builder.const_(&mut pools, Const::Int32(2));
    let c = builder.ad_scope(&mut pools, BasicBlock { first: a, last: a });
    let block = builder.finish();
    assert_eq!(
        *c.instruction(&pools),
        Instruction::AdScope { body: BasicBlock { first: a, last: a } }
    );
    let mut it: BasicBlockIter = block.iter(&pools);
    assert_eq!(it.next(&pools), Some(a));
    assert_eq!(it.next(&pools), Some(b));
    assert_eq!(it.next(&pools), Some(c));
    assert_eq!(it.next(&pools), None);
    assert_eq!(it.next(&pools), None);
    let empty = BasicBlock::new(&mut pools);
    assert_eq!(empty.iter(&pools).next(&pools), None);
}

#[test]
fn nodes_can_be_changed_in_place() {
    let mut pools = ModulePools::new();
    let n = luisa_compute_ir_new_node(
        &mut pools,
        Node::new(Arc::new(Instruction::Buffer), Type::void()),
    );
    n.get_mut(&mut pools).type_ = Type::primitive(Primitive::Int32);
    assert_eq!(n.type_(&pools), Type::primitive(Primitive::Int32));
    assert_eq!(*n.instruction(&pools), Instruction::Buffer);
    assert_eq!(luisa_compute_ir_node_get(&pools, n).type_, Type::primitive(Primitive::Int32));
}

#[test]
fn pools_keep_what_is_put_in() {
    let mut pool: Pool<u32> = Pool::new();
    assert_eq!(pool.len(), 0);
    assert_eq!(pool.allocate(7), 0);
    assert_eq!(pool.allocate(9), 1);
    assert_eq!(*pool.get(0), 7);
    assert_eq!(*pool.get(1), 9);
    assert_eq!(pool.len(), 2);
}

#[test]
fn operations_of_the_host() {
    let mut pools = luisa_compute_ir_new_module_pools();
    assert_eq!(pools.node_pool.len(), 0);
    assert_eq!(pools.bb_pool.len(), 0);
    assert!(pools.is_wf());
    let mut builder = luisa_compute_ir_new_builder(&mut pools);
    let int = Type::primitive(Primitive::Int32);
    let c = luisa_compute_ir_build_const(&mut builder, &mut pools, Const::Int32(3));
    let l = luisa_compute_ir_build_local(&mut builder, &mut pools, c);
    let z = luisa_compute_ir_build_local_zero_init(&mut builder, &mut pools, int);
    let sum = luisa_compute_ir_build_call(&mut builder, &mut pools, Func::Add, &[l, z], int);
    luisa_compute_ir_build_update(&mut builder, &mut pools, l, sum);
    let loose = luisa_compute_ir_new_node(
        &mut pools,
        Node::new(luisa_compute_ir_new_instruction(Instruction::Break), Type::void()),
    );
    luisa_compute_ir_append_node(&mut builder, &mut pools, loose);
    let block = luisa_compute_ir_build_finish(builder);
    let nodes = block.nodes(&pools);
    assert_eq!(nodes.len(), 7);
    assert_eq!(nodes[0], c);
    assert_eq!(nodes[1], l);
    assert_eq!(nodes[3], z);
    assert_eq!(nodes[4], sum);
    assert_eq!(*nodes[5].instruction(&pools), Instruction::Update { var: l, value: sum });
    assert_eq!(nodes[6], loose);

    let module = Module::from_fragment(block, pools);
    let block_module = luisa_compute_ir_new_block_module(BlockModule { module });
    assert_eq!(block_module.module.kind, ModuleKind::Block);
    assert_eq!(block_module.module.collect_nodes().len(), 7);

    let mut pools = ModulePools::new();
    let entry = IrBuilder::new(&mut pools).finish();
    let kernel = luisa_compute_ir_new_kernel_module(KernelModule {
        module: Module { kind: ModuleKind::Kernel, entry, pools },
        captures: vec![],
        args: vec![],
        shared: vec![],
        cpu_custom_ops: vec![],
        callables: vec![],
        block_size: [8, 8, 1],
    });
    assert_eq!(kernel.block_size, [8, 8, 1]);

    let mut callables = Vec::new();
    let mut pools = ModulePools::new();
    let entry = IrBuilder::new(&mut pools).finish();
    let handle = luisa_compute_ir_new_callable_module(
        &mut callables,
        CallableModule {
            module: Module { kind: ModuleKind::Function, entry, pools },
            ret_type: Type::void(),
            args: vec![],
            captures: vec![],
            callables: vec![],
            cpu_custom_ops: vec![],
        },
    );
    assert_eq!(handle, CallableModuleRef(0));
    assert_eq!(callables.len(), 1);
    assert_eq!(NodeRef(3), NodeRef(3));
}

#[test]
fn verbatim_prefix_is_taken_off() {
    assert_eq!(strip_verbatim_prefix(r"\\?\C:\cache"), r"C:\cache");
    assert_eq!(strip_verbatim_prefix(r"C:\cache"), r"C:\cache");
    assert_eq!(strip_verbatim_prefix("/usr/bin"), "/usr/bin");
    assert_eq!(strip_verbatim_prefix(r"\\?"), r"\\?");
    assert_eq!(strip_verbatim_prefix(r"\\?\"), "");
    assert_eq!(strip_verbatim_prefix(""), "");
}
