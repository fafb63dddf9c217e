//! Nodes of the IR: handles, constants, the closed set of intrinsics and
//! the instruction carried by each node.

use crate::registry::TypeRef;
use std::sync::Arc;
use vstd::prelude::*;

verus! {

/// Handle of a node in the node pool of its module.  Handle 0 names no node.
#[derive(Clone, Copy, Debug, PartialEq, Eq, Hash, PartialOrd, Ord, Structural)]
pub struct NodeRef(pub usize);

pub open spec fn spec_invalid_ref() -> NodeRef {
    NodeRef(0)
}

/// The handle that names no node.
#[verifier::when_used_as_spec(spec_invalid_ref)]
pub fn invalid_ref() -> (r: NodeRef)
    ensures
        r == NodeRef(0),
{
    NodeRef(0)
}

/// A basic block: the two sentinel nodes between which its nodes are linked.
#[derive(Clone, Copy, Debug, PartialEq, Eq, Hash, Structural)]
pub struct BasicBlock {
    pub first: NodeRef,
    pub last: NodeRef,
}

/// Handle of a callable module, compared by identity.
#[derive(Clone, Copy, Debug, PartialEq, Eq, Hash, Structural)]
pub struct CallableModuleRef(pub usize);

/// A custom operation run on the host: the addresses of its state, of the
/// function applied to the argument in place and of the destructor of the
/// state, and the type of the argument.
#[derive(Clone, Copy, Debug, PartialEq, Eq, Hash, Structural)]
pub struct CpuCustomOp {
    pub data: usize,
    pub func: usize,
    pub destructor: usize,
    pub arg_type: TypeRef,
}

/// An opaque payload attached to a node.  The tag is the same for all
/// payloads of one user type; two payloads of one tag are equal when their
/// bytes are.
#[derive(Clone, Debug, PartialEq, Eq)]
pub struct UserData {
    pub tag: u64,
    pub data: Vec<u8>,
}

impl UserData {
    /// Same tag and equal data.
    pub open spec fn agrees(self, other: UserData) -> bool {
        self.tag == other.tag && self.data@ == other.data@
    }
}

/// One incoming value of a phi node, with the block it comes from.
#[derive(Clone, Copy, Debug, PartialEq, Eq, Structural)]
pub struct PhiIncoming {
    pub value: NodeRef,
    pub block: BasicBlock,
}

#[derive(Clone, Copy, Debug, PartialEq, Eq, Structural)]
pub struct SwitchCase {
    pub value: i32,
    pub block: BasicBlock,
}

/// The intrinsics a call can name.
#[derive(Clone, Debug, PartialEq, Eq, Hash)]
pub enum Func {
    ZeroInitializer,
    Assume,
    Unreachable(Vec<u8>),
    Assert(Vec<u8>),
    ThreadId,
    BlockId,
    DispatchId,
    DispatchSize,
    RequiresGradient,
    Backward,
    Gradient,
    GradientMarker,
    AccGrad,
    Detach,
    RayTracingInstanceTransform,
    RayTracingSetInstanceTransform,
    RayTracingSetInstanceOpacity,
    RayTracingSetInstanceVisibility,
    RayTracingTraceClosest,
    RayTracingTraceAny,
    RayTracingQueryAll,
    RayTracingQueryAny,
    RayQueryWorldSpaceRay,
    RayQueryProceduralCandidateHit,
    RayQueryTriangleCandidateHit,
    RayQueryCommittedHit,
    RayQueryCommitTriangle,
    RayQueryCommitProcedural,
    RayQueryTerminate,
    RasterDiscard,
    IndirectClearDispatchBuffer,
    IndirectEmplaceDispatchKernel,
    Load,
    Cast,
    Bitcast,
    Add,
    Sub,
    Mul,
    Div,
    Rem,
    BitAnd,
    BitOr,
    BitXor,
    Shl,
    Shr,
    RotRight,
    RotLeft,
    Eq,
    Ne,
    Lt,
    Le,
    Gt,
    Ge,
    MatCompMul,
    Neg,
    Not,
    BitNot,
    All,
    Any,
    Select,
    Clamp,
    Lerp,
    Step,
    Saturate,
    Abs,
    Min,
    Max,
    ReduceSum,
    ReduceProd,
    ReduceMin,
    ReduceMax,
    Clz,
    Ctz,
    PopCount,
    Reverse,
    IsInf,
    IsNan,
    Acos,
    Acosh,
    Asin,
    Asinh,
    Atan,
    Atan2,
    Atanh,
    Cos,
    Cosh,
    Sin,
    Sinh,
    Tan,
    Tanh,
    Exp,
    Exp2,
    Exp10,
    Log,
    Log2,
    Log10,
    Powi,
    Powf,
    Sqrt,
    Rsqrt,
    Ceil,
    Floor,
    Fract,
    Trunc,
    Round,
    Fma,
    Copysign,
    Cross,
    Dot,
    OuterProduct,
    Length,
    LengthSquared,
    Normalize,
    Faceforward,
    Reflect,
    Determinant,
    Transpose,
    Inverse,
    SynchronizeBlock,
    AtomicExchange,
    AtomicCompareExchange,
    AtomicFetchAdd,
    AtomicFetchSub,
    AtomicFetchAnd,
    AtomicFetchOr,
    AtomicFetchXor,
    AtomicFetchMin,
    AtomicFetchMax,
    BufferRead,
    BufferWrite,
    BufferSize,
    Texture2dRead,
    Texture2dWrite,
    Texture3dRead,
    Texture3dWrite,
    BindlessTexture2dSample,
    BindlessTexture2dSampleLevel,
    BindlessTexture2dSampleGrad,
    BindlessTexture2dSampleGradLevel,
    BindlessTexture3dSample,
    BindlessTexture3dSampleLevel,
    BindlessTexture3dSampleGrad,
    BindlessTexture3dSampleGradLevel,
    BindlessTexture2dRead,
    BindlessTexture3dRead,
    BindlessTexture2dReadLevel,
    BindlessTexture3dReadLevel,
    BindlessTexture2dSize,
    BindlessTexture3dSize,
    BindlessTexture2dSizeLevel,
    BindlessTexture3dSizeLevel,
    BindlessBufferRead,
    BindlessBufferSize(TypeRef),
    BindlessBufferType,
    Vec,
    Vec2,
    Vec3,
    Vec4,
    Permute,
    InsertElement,
    ExtractElement,
    GetElementPtr,
    Struct,
    Array,
    Mat,
    Mat2,
    Mat3,
    Mat4,
    Callable(CallableModuleRef),
    CpuCustomOp(CpuCustomOp),
}

/// A constant.  The floating-point constants hold their bit patterns.
#[derive(Clone, Debug, PartialEq, Eq)]
pub enum Const {
    Zero(TypeRef),
    One(TypeRef),
    Bool(bool),
    Int32(i32),
    Uint32(u32),
    Int64(i64),
    Uint64(u64),
    Float32(u32),
    Float64(u64),
    Generic(Vec<u8>, TypeRef),
}

/// What a node does.
#[derive(Clone, Debug, PartialEq, Eq)]
pub enum Instruction {
    Buffer,
    Bindless,
    Texture2D,
    Texture3D,
    Accel,
    /// Group-shared memory.
    Shared,
    /// A uniform kernel argument.
    Uniform,
    /// A variable, with its initial value.
    Local { init: NodeRef },
    /// A parameter of a callable.
    Argument { by_value: bool },
    UserData(UserData),
    Invalid,
    Const(Const),
    /// Assignment to a variable.
    Update { var: NodeRef, value: NodeRef },
    Call(Func, Vec<NodeRef>),
    Phi(Vec<PhiIncoming>),
    Return(NodeRef),
    /// Runs the body, then repeats while the condition holds.
    Loop { body: BasicBlock, cond: NodeRef },
    /// Runs `prepare`, leaves when the condition fails, else runs `body`
    /// and then `update`, where a `continue` lands.
    GenericLoop { prepare: BasicBlock, cond: NodeRef, body: BasicBlock, update: BasicBlock },
    Break,
    Continue,
    If { cond: NodeRef, true_branch: BasicBlock, false_branch: BasicBlock },
    Switch { value: NodeRef, default: BasicBlock, cases: Vec<SwitchCase> },
    AdScope { body: BasicBlock },
    RayQuery { ray_query: NodeRef, on_triangle_hit: BasicBlock, on_procedural_hit: BasicBlock },
    AdDetach(BasicBlock),
    Comment(Vec<u8>),
}

/// A node: its result type, its instruction and its links to the
/// neighbours in the block it is linked in.
#[derive(Clone, Debug)]
pub struct Node {
    pub type_: TypeRef,
    pub next: NodeRef,
    pub prev: NodeRef,
    pub instruction: Arc<Instruction>,
}

impl NodeRef {
    pub open spec fn spec_valid(&self) -> bool {
        *self != NodeRef(0)
    }

    #[verifier::when_used_as_spec(spec_valid)]
    pub fn valid(&self) -> (r: bool)
        ensures
            r == self.spec_valid(),
    {
        self.0 != 0
    }
}

impl Node {
    /// A node that is not linked.
    pub fn new(instruction: Arc<Instruction>, type_: TypeRef) -> (r: Node)
        ensures
            r.instruction == instruction,
            r.type_ == type_,
            r.next == invalid_ref(),
            r.prev == invalid_ref(),
    {
        Node { instruction, type_, next: invalid_ref(), prev: invalid_ref() }
    }
}

impl Instruction {
    pub open spec fn spec_is_call(&self) -> bool {
        self is Call
    }

    pub open spec fn spec_is_const(&self) -> bool {
        self is Const
    }

    pub open spec fn spec_is_phi(&self) -> bool {
        self is Phi
    }

    #[verifier::when_used_as_spec(spec_is_call)]
    pub fn is_call(&self) -> (r: bool)
        ensures
            r == (self is Call),
    {
        match self {
            Instruction::Call(_, _) => true,
            _ => false,
        }
    }

    #[verifier::when_used_as_spec(spec_is_const)]
    pub fn is_const(&self) -> (r: bool)
        ensures
            r == (self is Const),
    {
        match self {
            Instruction::Const(_) => true,
            _ => false,
        }
    }

    #[verifier::when_used_as_spec(spec_is_phi)]
    pub fn is_phi(&self) -> (r: bool)
        ensures
            r == (self is Phi),
    {
        match self {
            Instruction::Phi(_) => true,
            _ => false,
        }
    }

    /// Calls, constants and phi nodes have a value.
    pub fn has_value(&self) -> (r: bool)
        ensures
            r == (self is Call || self is Const || self is Phi),
    {
        self.is_call() || self.is_const() || self.is_phi()
    }
}

/// Another handle to the same shared value.
///
/// Wraps `Arc::clone`, which hands out a new pointer to the allocation
/// that `a` points to: the value behind the result is the value behind `a`.
#[verifier::external_body]
pub(crate) fn share<T>(a: &Arc<T>) -> (r: Arc<T>)
    ensures
        r == *a,
{
    Arc::clone(a)
}

} // verus!
