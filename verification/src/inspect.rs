//! Questions asked of a node through its handle, and the value of constants.

use crate::decode::{le_signed, read_u32};
use crate::node::{Const, Func, Instruction, NodeRef, UserData};
use crate::pool::ModulePools;
use crate::registry::TypeRef;
use crate::types::{Primitive, Type};
use vstd::arithmetic::power2::lemma2_to64;
use vstd::prelude::*;

verus! {

/// The 32-bit integer with the bits of `v`.
pub open spec fn wrap_i32(v: int) -> int {
    if v >= 0x8000_0000 {
        v - 0x1_0000_0000
    } else {
        v
    }
}

/// The index that an `i32` stands for: itself, or for a negative one the
/// number with the same bits at the width of `usize`.
pub open spec fn index_of_i32(v: int) -> int {
    if v >= 0 {
        v
    } else {
        v + usize::MAX + 1
    }
}

impl Const {
    /// The constants that have a 32-bit integer value: the 32-bit integer
    /// literals, zero and one of an integer scalar type, and four bytes of an
    /// integer scalar type.
    pub open spec fn has_i32(&self) -> bool {
        match self {
            Const::Int32(_) | Const::Uint32(_) => true,
            Const::One(t) | Const::Zero(t) => t.spec_is_primitive_int(),
            Const::Generic(bytes, t) => t.spec_is_primitive_int() && bytes@.len() == 4,
            _ => false,
        }
    }

    pub open spec fn spec_i32(&self) -> int {
        match self {
            Const::Int32(v) => *v as int,
            Const::Uint32(v) => wrap_i32(*v as int),
            Const::One(_) => 1,
            Const::Zero(_) => 0,
            Const::Generic(bytes, _) => le_signed(bytes@),
            _ => 0,
        }
    }

    /// The value of the constant as a 32-bit integer.
    pub fn get_i32(&self) -> (r: i32)
        requires
            self.has_i32(),
        ensures
            r == self.spec_i32(),
    {
        match self {
            Const::Int32(v) => *v,
            Const::Uint32(v) => {
                if *v >= 0x8000_0000 {
                    ((*v - 0x8000_0000) as i32) + i32::MIN
                } else {
                    *v as i32
                }
            },
            Const::One(_) => 1,
            Const::Zero(_) => 0,
            Const::Generic(slice, _) => {
                let v = read_u32(slice.as_slice());
                proof {
                    lemma2_to64();
                    assert(slice@.subrange(0, 4) =~= slice@);
                }
                if v >= 0x8000_0000 {
                    ((v - 0x8000_0000) as i32) + i32::MIN
                } else {
                    v as i32
                }
            },
            _ => 0,
        }
    }

    pub open spec fn spec_type(&self) -> TypeRef {
        match self {
            Const::Zero(t) | Const::One(t) | Const::Generic(_, t) => *t,
            Const::Bool(_) => Type::spec_primitive(Primitive::Bool),
            Const::Int32(_) => Type::spec_primitive(Primitive::Int32),
            Const::Uint32(_) => Type::spec_primitive(Primitive::Uint32),
            Const::Int64(_) => Type::spec_primitive(Primitive::Int64),
            Const::Uint64(_) => Type::spec_primitive(Primitive::Uint64),
            Const::Float32(_) => Type::spec_primitive(Primitive::Float32),
            Const::Float64(_) => Type::spec_primitive(Primitive::Float64),
        }
    }

    /// The type of the constant.
    pub fn type_(&self) -> (r: TypeRef)
        ensures
            r == self.spec_type(),
    {
        match self {
            Const::Zero(ty) => *ty,
            Const::One(ty) => *ty,
            Const::Bool(_) => Type::primitive(Primitive::Bool),
            Const::Int32(_) => Type::primitive(Primitive::Int32),
            Const::Uint32(_) => Type::primitive(Primitive::Uint32),
            Const::Int64(_) => Type::primitive(Primitive::Int64),
            Const::Uint64(_) => Type::primitive(Primitive::Uint64),
            Const::Float32(_) => Type::primitive(Primitive::Float32),
            Const::Float64(_) => Type::primitive(Primitive::Float64),
            Const::Generic(_, t) => *t,
        }
    }
}

impl Instruction {
    /// A call of the intrinsic that addresses a component of a variable.
    pub open spec fn is_element_ptr(&self) -> bool {
        self matches Instruction::Call(f, _) && f is GetElementPtr
    }

    /// What can be assigned to: a variable, a parameter passed by reference,
    /// or a component of one of these.
    pub open spec fn spec_is_lvalue(&self) -> bool {
        match self {
            Instruction::Local { .. } => true,
            Instruction::Argument { by_value } => !*by_value,
            Instruction::Call(f, _) => f is GetElementPtr,
            _ => false,
        }
    }

    /// The operands of a call.
    pub open spec fn operands(&self) -> Seq<NodeRef> {
        match self {
            Instruction::Call(_, args) => args@,
            _ => Seq::empty(),
        }
    }
}

impl NodeRef {
    /// The value of a constant node as a 32-bit integer.
    pub fn get_i32(&self, pools: &ModulePools) -> (r: i32)
        requires
            pools.contains(*self),
            pools.instruction(*self) matches Instruction::Const(c) && c.has_i32(),
        ensures
            pools.instruction(*self) matches Instruction::Const(c) && r == c.spec_i32(),
    {
        match self.instruction(pools) {
            Instruction::Const(c) => c.get_i32(),
            _ => 0,
        }
    }

    pub fn is_unreachable(&self, pools: &ModulePools) -> (r: bool)
        requires
            pools.contains(*self),
        ensures
            r == (pools.instruction(*self) matches Instruction::Call(f, _) && f is Unreachable),
    {
        match self.instruction(pools) {
            Instruction::Call(Func::Unreachable(_), _) => true,
            _ => false,
        }
    }

    /// The payload of a user-data node.
    pub fn get_user_data<'a>(&self, pools: &'a ModulePools) -> (r: &'a UserData)
        requires
            pools.contains(*self),
            pools.instruction(*self) is UserData,
        ensures
            pools.instruction(*self) == Instruction::UserData(*r),
    {
        match self.instruction(pools) {
            Instruction::UserData(data) => data,
            _ => vstd::pervasive::unreached(),
        }
    }

    pub fn is_user_data(&self, pools: &ModulePools) -> (r: bool)
        requires
            pools.contains(*self),
        ensures
            r == pools.instruction(*self) is UserData,
    {
        match self.instruction(pools) {
            Instruction::UserData(_) => true,
            _ => false,
        }
    }

    pub fn is_local(&self, pools: &ModulePools) -> (r: bool)
        requires
            pools.contains(*self),
        ensures
            r == pools.instruction(*self) is Local,
    {
        match self.instruction(pools) {
            Instruction::Local { .. } => true,
            _ => false,
        }
    }

    pub fn is_const(&self, pools: &ModulePools) -> (r: bool)
        requires
            pools.contains(*self),
        ensures
            r == pools.instruction(*self) is Const,
    {
        match self.instruction(pools) {
            Instruction::Const(_) => true,
            _ => false,
        }
    }

    pub fn is_uniform(&self, pools: &ModulePools) -> (r: bool)
        requires
            pools.contains(*self),
        ensures
            r == pools.instruction(*self) is Uniform,
    {
        match self.instruction(pools) {
            Instruction::Uniform => true,
            _ => false,
        }
    }

    pub fn is_argument(&self, pools: &ModulePools) -> (r: bool)
        requires
            pools.contains(*self),
        ensures
            r == pools.instruction(*self) is Argument,
    {
        match self.instruction(pools) {
            Instruction::Argument { .. } => true,
            _ => false,
        }
    }

    pub fn is_value_argument(&self, pools: &ModulePools) -> (r: bool)
        requires
            pools.contains(*self),
        ensures
            r == (pools.instruction(*self) matches Instruction::Argument { by_value } && by_value),
    {
        match self.instruction(pools) {
            Instruction::Argument { by_value } => *by_value,
            _ => false,
        }
    }

    pub fn is_refernece_argument(&self, pools: &ModulePools) -> (r: bool)
        requires
            pools.contains(*self),
        ensures
            r == (pools.instruction(*self) matches Instruction::Argument { by_value } && !by_value),
    {
        match self.instruction(pools) {
            Instruction::Argument { by_value } => !*by_value,
            _ => false,
        }
    }

    pub fn is_phi(&self, pools: &ModulePools) -> (r: bool)
        requires
            pools.contains(*self),
        ensures
            r == pools.instruction(*self) is Phi,
    {
        self.instruction(pools).is_phi()
    }

    /// Whether the node can be assigned to.
    pub fn is_lvalue(&self, pools: &ModulePools) -> (r: bool)
        requires
            pools.contains(*self),
        ensures
            r == pools.instruction(*self).spec_is_lvalue(),
    {
        match self.instruction(pools) {
            Instruction::Local { .. } => true,
            Instruction::Argument { by_value } => !*by_value,
            Instruction::Call(f, _) => matches!(f, Func::GetElementPtr),
            _ => false,
        }
    }
}

/// `n` heads a chain of `d` component addressings: `d` is 0 and `n`
/// addresses no component, or `n` addresses the component, named by a
/// constant with a 32-bit integer value, of a node that heads a chain of
/// `d - 1`.
pub open spec fn element_chain(p: &ModulePools, n: NodeRef, d: nat) -> bool
    decreases d,
{
    if p.instruction(n).is_element_ptr() {
        let args = p.instruction(n).operands();
        &&& d > 0
        &&& args.len() >= 2
        &&& p.contains(args[0])
        &&& p.contains(args[1])
        &&& p.instruction(args[1]) matches Instruction::Const(c) && c.has_i32()
        &&& element_chain(p, args[0], (d - 1) as nat)
    } else {
        d == 0
    }
}

/// Length of the chain of component addressings that `n` heads.
pub open spec fn chain_depth(p: &ModulePools, n: NodeRef) -> nat {
    choose|d: nat| element_chain(p, n, d)
}

/// The node whose components a chain of `d` addressings addresses.
pub open spec fn chain_root(p: &ModulePools, n: NodeRef, d: nat) -> NodeRef
    decreases d,
{
    if d == 0 {
        n
    } else {
        chain_root(p, p.instruction(n).operands()[0], (d - 1) as nat)
    }
}

/// The index that a component addressing names.
pub open spec fn element_index(p: &ModulePools, n: NodeRef) -> int {
    match p.instruction(p.instruction(n).operands()[1]) {
        Instruction::Const(c) => index_of_i32(c.spec_i32()),
        _ => 0,
    }
}

/// The steps of a chain of `d` addressings, from the root on: for each
/// the type of the component and its index.
pub open spec fn chain_steps(p: &ModulePools, n: NodeRef, d: nat) -> Seq<(TypeRef, usize)>
    decreases d,
{
    if d == 0 {
        Seq::empty()
    } else {
        chain_steps(p, p.instruction(n).operands()[0], (d - 1) as nat).push(
            (p.node(n).type_, element_index(p, n) as usize),
        )
    }
}

/// A node heads a chain of one length only.
pub proof fn lemma_chain_depth_unique(p: &ModulePools, n: NodeRef, d1: nat, d2: nat)
    requires
        element_chain(p, n, d1),
        element_chain(p, n, d2),
    ensures
        d1 == d2,
        chain_depth(p, n) == d1,
    decreases d1,
{
    if p.instruction(n).is_element_ptr() {
        lemma_chain_depth_unique(
            p,
            p.instruction(n).operands()[0],
            (d1 - 1) as nat,
            (d2 - 1) as nat,
        );
    }
    let d = chain_depth(p, n);
    if d != d1 {
        if p.instruction(n).is_element_ptr() {
            lemma_chain_depth_unique(
                p,
                p.instruction(n).operands()[0],
                (d1 - 1) as nat,
                (d - 1) as nat,
            );
        }
    }
}

impl NodeRef {
    /// For a node that addresses a component: the node at the root of the
    /// chain of addressings, and the steps from the root to the component.
    pub fn access_chain(&self, pools: &ModulePools) -> (r: Option<(NodeRef, Vec<(TypeRef, usize)>)>)
        requires
            pools.contains(*self),
            exists|d: nat| element_chain(pools, *self, d),
        ensures
            r is Some == pools.instruction(*self).is_element_ptr(),
            r matches Some((root, steps)) ==> root == chain_root(
                pools,
                *self,
                chain_depth(pools, *self),
            ) && steps@ == chain_steps(pools, *self, chain_depth(pools, *self)),
        decreases chain_depth(pools, *self),
    {
        let ghost d = chain_depth(pools, *self);
        match self.instruction(pools) {
            Instruction::Call(f, args) => {
                if matches!(f, Func::GetElementPtr) {
                    let var = args[0];
                    let v = args[1].get_i32(pools);
                    let idx: usize = if v >= 0 {
                        v as usize
                    } else {
                        usize::MAX - ((-(v + 1)) as usize)
                    };
                    proof {
                        assert(element_chain(pools, *self, d));
                        assert(element_chain(pools, var, (d - 1) as nat));
                        lemma_chain_depth_unique(pools, var, (d - 1) as nat, (d - 1) as nat);
                        reveal_with_fuel(chain_root, 2);
                        reveal_with_fuel(chain_steps, 2);
                        reveal_with_fuel(element_chain, 2);
                    }
                    let ty = self.type_(pools);
                    match var.access_chain(pools) {
                        Some((parent, mut indices)) => {
                            indices.push((ty, idx));
                            Some((parent, indices))
                        },
                        None => {
                            let mut indices: Vec<(TypeRef, usize)> = Vec::new();
                            indices.push((ty, idx));
                            assert(indices@ =~= chain_steps(pools, *self, d));
                            Some((var, indices))
                        },
                    }
                } else {
                    proof {
                        lemma_chain_depth_unique(pools, *self, 0, 0);
                    }
                    None
                }
            },
            _ => {
                proof {
                    lemma_chain_depth_unique(pools, *self, 0, 0);
                }
                None
            },
        }
    }
}

} // verus!
