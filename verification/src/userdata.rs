//! Payloads of user types attached to nodes.

use crate::decode::le_bytes;
use crate::node::{Instruction, Node, NodeRef, UserData};
use crate::pool::{new_node, ModulePools};
use crate::types::Type;
use std::sync::Arc;
use vstd::arithmetic::power2::{lemma2_to64, pow2};
use vstd::prelude::*;

verus! {

/// A type whose values can be attached to nodes: it has a tag of its own,
/// and each value has its bytes, which decide equality.
pub trait UserNodeData: Sized {
    spec fn spec_tag() -> u64;

    spec fn payload(&self) -> Seq<u8>;

    /// The tag of the type.
    fn tag() -> (t: u64)
        ensures
            t == Self::spec_tag(),
    ;

    /// The bytes of the value.
    fn to_payload(&self) -> (b: Vec<u8>)
        ensures
            b@ == self.payload(),
    ;

    /// Whether two values are equal.
    fn equal(&self, other: &Self) -> (r: bool)
        ensures
            r == (self.payload() == other.payload()),
    ;
}

/// The `n` bytes of the little-endian form of `v`.
fn le_bytes_of(v: u64, n: usize) -> (b: Vec<u8>)
    ensures
        b@ == le_bytes(v as nat, n as nat),
    decreases n,
{
    if n == 0 {
        Vec::new()
    } else {
        let mut rest = le_bytes_of(v / 256, n - 1);
        rest.insert(0, (v % 256) as u8);
        assert(rest@ =~= seq![(v % 256) as u8] + le_bytes((v / 256) as nat, (n - 1) as nat));
        rest
    }
}

/// Different numbers of `8 * n` bits have different bytes.
proof fn lemma_le_bytes_injective(a: nat, b: nat, n: nat)
    requires
        a < pow2(8 * n),
        b < pow2(8 * n),
        le_bytes(a, n) == le_bytes(b, n),
    ensures
        a == b,
{
    crate::decode::lemma_le_value_of_bytes(a, n);
    crate::decode::lemma_le_value_of_bytes(b, n);
}

impl UserNodeData for u32 {
    open spec fn spec_tag() -> u64 {
        2
    }

    open spec fn payload(&self) -> Seq<u8> {
        le_bytes(*self as nat, 4)
    }

    fn tag() -> (t: u64) {
        2
    }

    fn to_payload(&self) -> (b: Vec<u8>) {
        le_bytes_of(*self as u64, 4)
    }

    fn equal(&self, other: &Self) -> (r: bool) {
        proof {
            lemma2_to64();
            if self.payload() == other.payload() {
                lemma_le_bytes_injective(*self as nat, *other as nat, 4);
            }
        }
        *self == *other
    }
}

impl UserNodeData for u64 {
    open spec fn spec_tag() -> u64 {
        3
    }

    open spec fn payload(&self) -> Seq<u8> {
        le_bytes(*self as nat, 8)
    }

    fn tag() -> (t: u64) {
        3
    }

    fn to_payload(&self) -> (b: Vec<u8>) {
        le_bytes_of(*self, 8)
    }

    fn equal(&self, other: &Self) -> (r: bool) {
        proof {
            lemma2_to64();
            if self.payload() == other.payload() {
                lemma_le_bytes_injective(*self as nat, *other as nat, 8);
            }
        }
        *self == *other
    }
}

impl UserNodeData for usize {
    open spec fn spec_tag() -> u64 {
        1
    }

    open spec fn payload(&self) -> Seq<u8> {
        le_bytes(*self as nat, 8)
    }

    fn tag() -> (t: u64) {
        1
    }

    fn to_payload(&self) -> (b: Vec<u8>) {
        le_bytes_of(*self as u64, 8)
    }

    fn equal(&self, other: &Self) -> (r: bool) {
        proof {
            lemma2_to64();
            if self.payload() == other.payload() {
                lemma_le_bytes_injective(*self as nat, *other as nat, 8);
            }
        }
        *self == *other
    }
}

/// The number with the bits of a 32-bit integer.
pub open spec fn bits_of_i32(v: i32) -> nat {
    if v < 0 {
        (v + 0x1_0000_0000) as nat
    } else {
        v as nat
    }
}

/// The number with the bits of a 64-bit integer.
pub open spec fn bits_of_i64(v: i64) -> nat {
    if v < 0 {
        (v + 0x1_0000_0000_0000_0000) as nat
    } else {
        v as nat
    }
}

impl UserNodeData for i32 {
    open spec fn spec_tag() -> u64 {
        4
    }

    open spec fn payload(&self) -> Seq<u8> {
        le_bytes(bits_of_i32(*self), 4)
    }

    fn tag() -> (t: u64) {
        4
    }

    fn to_payload(&self) -> (b: Vec<u8>) {
        let bits: u64 = if *self < 0 {
            (*self as i64 + 0x1_0000_0000) as u64
        } else {
            *self as u64
        };
        le_bytes_of(bits, 4)
    }

    fn equal(&self, other: &Self) -> (r: bool) {
        proof {
            lemma2_to64();
            if self.payload() == other.payload() {
                lemma_le_bytes_injective(bits_of_i32(*self), bits_of_i32(*other), 4);
            }
        }
        *self == *other
    }
}

impl UserNodeData for i64 {
    open spec fn spec_tag() -> u64 {
        5
    }

    open spec fn payload(&self) -> Seq<u8> {
        le_bytes(bits_of_i64(*self), 8)
    }

    fn tag() -> (t: u64) {
        5
    }

    fn to_payload(&self) -> (b: Vec<u8>) {
        let bits: u64 = if *self < 0 {
            ((*self - i64::MIN) as u64) + 0x8000_0000_0000_0000
        } else {
            *self as u64
        };
        le_bytes_of(bits, 8)
    }

    fn equal(&self, other: &Self) -> (r: bool) {
        proof {
            lemma2_to64();
            if self.payload() == other.payload() {
                lemma_le_bytes_injective(bits_of_i64(*self), bits_of_i64(*other), 8);
            }
        }
        *self == *other
    }
}

impl UserNodeData for bool {
    open spec fn spec_tag() -> u64 {
        6
    }

    open spec fn payload(&self) -> Seq<u8> {
        if *self {
            seq![1u8]
        } else {
            seq![0u8]
        }
    }

    fn tag() -> (t: u64) {
        6
    }

    fn to_payload(&self) -> (b: Vec<u8>) {
        let mut b: Vec<u8> = Vec::new();
        if *self {
            b.push(1);
        } else {
            b.push(0);
        }
        assert(b@ =~= self.payload());
        b
    }

    fn equal(&self, other: &Self) -> (r: bool) {
        proof {
            if *self != *other {
                assert(self.payload()[0] != other.payload()[0]);
            }
        }
        *self == *other
    }
}

/// Makes a node, not linked, that carries `data`.
pub fn new_user_node<T: UserNodeData>(pools: &mut ModulePools, data: T) -> (r: NodeRef)
    requires
        old(pools).wf(),
    ensures
        final(pools).wf(),
        final(pools).extends(old(pools)),
        final(pools).len() == old(pools).len() + 1,
        r.0 == old(pools).len() + 1,
        !final(pools).linked(r),
        final(pools).node(r).type_ == Type::spec_userdata(),
        final(pools).instruction(r) matches Instruction::UserData(u) && u.tag == T::spec_tag()
            && u.data@ == data.payload(),
{
    let payload = UserData { tag: T::tag(), data: data.to_payload() };
    new_node(pools, Node::new(Arc::new(Instruction::UserData(payload)), Type::userdata()))
}

impl NodeRef {
    /// The bytes of the payload of a node that carries a value of type `T`.
    pub fn unwrap_user_data<'a, T: UserNodeData>(&self, pools: &'a ModulePools) -> (r: &'a Vec<u8>)
        requires
            pools.contains(*self),
            pools.instruction(*self) matches Instruction::UserData(u) && u.tag == T::spec_tag(),
        ensures
            pools.instruction(*self) matches Instruction::UserData(u) && *r == u.data,
    {
        &self.get_user_data(pools).data
    }
}

} // verus!
