//! Interning of types.
//!
//! A [`TypeRegistry`] holds every registered type once and hands out a
//! [`TypeRef`] for it; structurally equal types get the same handle, so that
//! comparing handles is comparing types.  The handles of `Void`, `UserData`
//! and the scalars are the same in every registry.

use crate::types::{MatrixType, Primitive, Type, TypeModel, VectorElementType, VectorType};
use vstd::prelude::*;

verus! {

/// Handle of an interned type.
#[derive(Clone, Copy, Debug, PartialEq, Eq, Hash, Structural)]
pub struct TypeRef(pub usize);

/// Number of types that every registry holds from the start.
pub const BUILTIN_TYPES: usize = 11;

impl Primitive {
    /// Position of the scalar among the scalars.
    pub open spec fn spec_index(self) -> int {
        match self {
            Primitive::Bool => 0,
            Primitive::Int16 => 1,
            Primitive::Uint16 => 2,
            Primitive::Int32 => 3,
            Primitive::Uint32 => 4,
            Primitive::Int64 => 5,
            Primitive::Uint64 => 6,
            Primitive::Float32 => 7,
            Primitive::Float64 => 8,
        }
    }
}

/// The type that every registry holds at index `i`, for `i` below
/// [`BUILTIN_TYPES`]: `Void`, `UserData`, then the scalars.
pub open spec fn builtin(i: int) -> TypeModel {
    if i == 0 {
        TypeModel::Void
    } else if i == 1 {
        TypeModel::UserData
    } else if i == 2 {
        TypeModel::Primitive(Primitive::Bool)
    } else if i == 3 {
        TypeModel::Primitive(Primitive::Int16)
    } else if i == 4 {
        TypeModel::Primitive(Primitive::Uint16)
    } else if i == 5 {
        TypeModel::Primitive(Primitive::Int32)
    } else if i == 6 {
        TypeModel::Primitive(Primitive::Uint32)
    } else if i == 7 {
        TypeModel::Primitive(Primitive::Int64)
    } else if i == 8 {
        TypeModel::Primitive(Primitive::Uint64)
    } else if i == 9 {
        TypeModel::Primitive(Primitive::Float32)
    } else {
        TypeModel::Primitive(Primitive::Float64)
    }
}

impl TypeRef {
    /// The handle of a 32- or 64-bit integer scalar.
    pub open spec fn spec_is_primitive_int(&self) -> bool {
        5 <= self.0 <= 8
    }

    /// Whether this is the handle of a scalar type that counts as an integer.
    #[verifier::when_used_as_spec(spec_is_primitive_int)]
    pub fn is_primitive_int(&self) -> (r: bool)
        ensures
            r == self.spec_is_primitive_int(),
            r == (exists|p: Primitive| p.spec_is_int() && *self == Type::spec_primitive(p)),
    {
        proof {
            if 5 <= self.0 <= 8 {
                let p = if self.0 == 5 {
                    Primitive::Int32
                } else if self.0 == 6 {
                    Primitive::Uint32
                } else if self.0 == 7 {
                    Primitive::Int64
                } else {
                    Primitive::Uint64
                };
                assert(p.spec_is_int() && *self == Type::spec_primitive(p));
            }
        }
        5 <= self.0 && self.0 <= 8
    }
}

impl Type {
    pub open spec fn spec_void() -> TypeRef {
        TypeRef(0)
    }

    pub open spec fn spec_userdata() -> TypeRef {
        TypeRef(1)
    }

    pub open spec fn spec_primitive(p: Primitive) -> TypeRef {
        TypeRef((2 + p.spec_index()) as usize)
    }

    /// The handle of `Void`.
    #[verifier::when_used_as_spec(spec_void)]
    pub fn void() -> (r: TypeRef)
        ensures
            r == Type::spec_void(),
    {
        TypeRef(0)
    }

    /// The handle of `UserData`.
    #[verifier::when_used_as_spec(spec_userdata)]
    pub fn userdata() -> (r: TypeRef)
        ensures
            r == Type::spec_userdata(),
    {
        TypeRef(1)
    }

    /// The handle of a scalar type.
    #[verifier::when_used_as_spec(spec_primitive)]
    pub fn primitive(p: Primitive) -> (r: TypeRef)
        ensures
            r == Type::spec_primitive(p),
    {
        match p {
            Primitive::Bool => TypeRef(2),
            Primitive::Int16 => TypeRef(3),
            Primitive::Uint16 => TypeRef(4),
            Primitive::Int32 => TypeRef(5),
            Primitive::Uint32 => TypeRef(6),
            Primitive::Int64 => TypeRef(7),
            Primitive::Uint64 => TypeRef(8),
            Primitive::Float32 => TypeRef(9),
            Primitive::Float64 => TypeRef(10),
        }
    }
}

/// The interner.
pub struct TypeRegistry {
    pub types: Vec<Type>,
}

impl TypeRegistry {
    pub open spec fn contains(&self, h: TypeRef) -> bool {
        h.0 < self.types.len()
    }

    /// The type behind a handle.
    pub open spec fn type_of(&self, h: TypeRef) -> TypeModel {
        self.types[h.0 as int]@
    }

    /// Some handle of this registry stands for `t`.
    pub open spec fn holds(&self, t: TypeModel) -> bool {
        exists|h: TypeRef| self.contains(h) && #[trigger] self.type_of(h) == t
    }

    /// The built-in types stand at their places and no type stands twice.
    pub open spec fn wf(&self) -> bool {
        &&& self.types.len() >= BUILTIN_TYPES
        &&& forall|i: int| 0 <= i < BUILTIN_TYPES ==> (#[trigger] self.types[i])@ == builtin(i)
        &&& forall|h1: TypeRef, h2: TypeRef|
            self.contains(h1) && self.contains(h2) && #[trigger] self.type_of(h1)
                == #[trigger] self.type_of(h2) ==> h1 == h2
    }

    /// Every handle of `old` is a handle of `self`, for the same type.
    pub open spec fn extends(&self, old: &TypeRegistry) -> bool {
        forall|h: TypeRef| #[trigger]
            old.contains(h) ==> self.contains(h) && self.type_of(h) == old.type_of(h)
    }

    /// A registry that holds the built-in types.
    pub fn new() -> (r: Self)
        ensures
            r.wf(),
            r.types.len() == BUILTIN_TYPES,
    {
        let mut types: Vec<Type> = Vec::new();
        types.push(Type::Void);
        types.push(Type::UserData);
        types.push(Type::Primitive(Primitive::Bool));
        types.push(Type::Primitive(Primitive::Int16));
        types.push(Type::Primitive(Primitive::Uint16));
        types.push(Type::Primitive(Primitive::Int32));
        types.push(Type::Primitive(Primitive::Uint32));
        types.push(Type::Primitive(Primitive::Int64));
        types.push(Type::Primitive(Primitive::Uint64));
        types.push(Type::Primitive(Primitive::Float32));
        types.push(Type::Primitive(Primitive::Float64));
        let r = TypeRegistry { types };
        proof {
            assert forall|h1: TypeRef, h2: TypeRef|
                r.contains(h1) && r.contains(h2) && #[trigger] r.type_of(h1) == #[trigger] r.type_of(
                    h2,
                ) implies h1 == h2 by {
                assert(r.type_of(h1) == builtin(h1.0 as int));
                assert(r.type_of(h2) == builtin(h2.0 as int));
            }
        }
        r
    }

    /// Number of types held.
    pub fn len(&self) -> (n: usize)
        ensures
            n == self.types.len(),
    {
        self.types.len()
    }

    /// The type behind a handle.
    pub fn get(&self, h: TypeRef) -> (t: &Type)
        requires
            self.contains(h),
        ensures
            t@ == self.type_of(h),
    {
        &self.types[h.0]
    }

    /// The handle of `ty`: the one it already has in this registry, or a
    /// new one.
    pub fn register_type(&mut self, ty: Type) -> (h: TypeRef)
        requires
            old(self).wf(),
        ensures
            final(self).wf(),
            final(self).extends(old(self)),
            final(self).contains(h),
            final(self).type_of(h) == ty@,
            forall|h0: TypeRef|
                old(self).contains(h0) && #[trigger] old(self).type_of(h0) == ty@ ==> h == h0,
            old(self).holds(ty@) ==> final(self).types.len() == old(self).types.len(),
            !old(self).holds(ty@) ==> final(self).types.len() == old(self).types.len() + 1 && h.0
                == old(self).types.len(),
    {
        let mut i: usize = 0;
        while i < self.types.len()
            invariant
                i <= self.types.len(),
                *self == *old(self),
                self.wf(),
                forall|j: int| 0 <= j < i ==> (#[trigger] self.types[j])@ != ty@,
            decreases self.types.len() - i,
        {
            if self.types[i].same(&ty) {
                assert(self.contains(TypeRef(i)) && self.type_of(TypeRef(i)) == ty@);
                return TypeRef(i);
            }
            i += 1;
        }
        proof {
            if old(self).holds(ty@) {
                let h0 = choose|h: TypeRef| old(self).contains(h) && #[trigger] old(self).type_of(h) == ty@;
                assert(self.types[h0.0 as int]@ == ty@);
            }
        }
        let ghost model = ty@;
        self.types.push(ty);
        let h = TypeRef(self.types.len() - 1);
        proof {
            assert forall|h1: TypeRef, h2: TypeRef|
                self.contains(h1) && self.contains(h2) && #[trigger] self.type_of(h1)
                    == #[trigger] self.type_of(h2) implies h1 == h2 by {
                if h1 != h2 {
                    if h1.0 < old(self).types.len() && h2.0 < old(self).types.len() {
                        assert(old(self).type_of(h1) == old(self).type_of(h2));
                    } else if h1.0 < old(self).types.len() {
                        assert(old(self).types[h1.0 as int]@ != model);
                    } else if h2.0 < old(self).types.len() {
                        assert(old(self).types[h2.0 as int]@ != model);
                    }
                }
            }
        }
        h
    }
}

/// Two handles of one registry that stand for structurally equal types are
/// the same handle.
pub proof fn lemma_interned(registry: TypeRegistry, h1: TypeRef, h2: TypeRef)
    requires
        registry.wf(),
        registry.contains(h1),
        registry.contains(h2),
    ensures
        (registry.type_of(h1) == registry.type_of(h2)) <==> h1 == h2,
{
}

/// In a registry the handle of a built-in type is the fixed one.
pub proof fn lemma_builtin_handles(registry: TypeRegistry, h: TypeRef)
    requires
        registry.wf(),
        registry.contains(h),
    ensures
        registry.type_of(h) == TypeModel::Void <==> h == Type::spec_void(),
        registry.type_of(h) == TypeModel::UserData <==> h == Type::spec_userdata(),
        forall|p: Primitive|
            registry.type_of(h) == TypeModel::Primitive(p) <==> h == #[trigger] Type::spec_primitive(
                p,
            ),
{
    assert(registry.type_of(TypeRef(0)) == builtin(0));
    assert(registry.type_of(TypeRef(1)) == builtin(1));
    assert forall|p: Primitive|
        registry.type_of(h) == TypeModel::Primitive(p) <==> h == #[trigger] Type::spec_primitive(
            p,
        ) by {
        let hp = Type::spec_primitive(p);
        assert(registry.contains(hp));
        assert(registry.types[hp.0 as int]@ == builtin(hp.0 as int));
        assert(registry.type_of(hp) == TypeModel::Primitive(p));
    }
}

impl Type {
    /// Registers the vector of `length` scalars `element`.
    pub fn vector(types: &mut TypeRegistry, element: Primitive, length: u32) -> (h: TypeRef)
        requires
            old(types).wf(),
        ensures
            final(types).wf(),
            final(types).extends(old(types)),
            final(types).contains(h),
            final(types).type_of(h) == TypeModel::Vector(
                VectorType { element: VectorElementType::Scalar(element), length },
            ),
    {
        types.register_type(
            Type::Vector(VectorType { element: VectorElementType::Scalar(element), length }),
        )
    }

    /// Registers the vector of `length` vectors `element`.
    pub fn vector_vector(types: &mut TypeRegistry, element: VectorType, length: u32) -> (h: TypeRef)
        requires
            old(types).wf(),
        ensures
            final(types).wf(),
            final(types).extends(old(types)),
            final(types).contains(h),
            final(types).type_of(h) == TypeModel::Vector(
                VectorType { element: VectorElementType::Vector(Box::new(element)), length },
            ),
    {
        types.register_type(
            Type::Vector(
                VectorType { element: VectorElementType::Vector(Box::new(element)), length },
            ),
        )
    }

    /// Registers the square matrix of scalars `element`.
    pub fn matrix(types: &mut TypeRegistry, element: Primitive, dimension: u32) -> (h: TypeRef)
        requires
            old(types).wf(),
        ensures
            final(types).wf(),
            final(types).extends(old(types)),
            final(types).contains(h),
            final(types).type_of(h) == TypeModel::Matrix(
                MatrixType { element: VectorElementType::Scalar(element), dimension },
            ),
    {
        types.register_type(
            Type::Matrix(MatrixType { element: VectorElementType::Scalar(element), dimension }),
        )
    }

    /// Registers the square matrix of vectors `element`.
    pub fn matrix_vector(types: &mut TypeRegistry, element: VectorType, dimension: u32) -> (h:
        TypeRef)
        requires
            old(types).wf(),
        ensures
            final(types).wf(),
            final(types).extends(old(types)),
            final(types).contains(h),
            final(types).type_of(h) == TypeModel::Matrix(
                MatrixType { element: VectorElementType::Vector(Box::new(element)), dimension },
            ),
    {
        types.register_type(
            Type::Matrix(
                MatrixType { element: VectorElementType::Vector(Box::new(element)), dimension },
            ),
        )
    }

    /// Registers the opaque type of this name.
    pub fn opaque(types: &mut TypeRegistry, name: String) -> (h: TypeRef)
        requires
            old(types).wf(),
        ensures
            final(types).wf(),
            final(types).extends(old(types)),
            final(types).contains(h),
            final(types).type_of(h) == TypeModel::Opaque(name@),
    {
        types.register_type(Type::Opaque(name))
    }

    /// The type of the truth values of `from`: `Bool` for a scalar, the
    /// boolean vector of the same length for a vector of scalars, and for a
    /// vector of vectors the vector, of the same length, of the boolean
    /// vectors of its innermost shape.
    pub open spec fn spec_bool(from: TypeModel) -> TypeModel {
        match from {
            TypeModel::Vector(v) => match v.element {
                VectorElementType::Scalar(_) => TypeModel::Vector(
                    VectorType {
                        element: VectorElementType::Scalar(Primitive::Bool),
                        length: v.length,
                    },
                ),
                VectorElementType::Vector(inner) => TypeModel::Vector(
                    VectorType {
                        element: VectorElementType::Vector(Box::new(inner.spec_to_bool())),
                        length: v.length,
                    },
                ),
            },
            _ => TypeModel::Primitive(Primitive::Bool),
        }
    }

    /// Registers the boolean projection of a scalar or vector type.
    pub fn bool(types: &mut TypeRegistry, from: TypeRef) -> (h: TypeRef)
        requires
            old(types).wf(),
            old(types).contains(from),
            old(types).type_of(from) is Primitive || old(types).type_of(from) is Vector,
        ensures
            final(types).wf(),
            final(types).extends(old(types)),
            final(types).contains(h),
            final(types).type_of(h) == Type::spec_bool(old(types).type_of(from)),
    {
        let projected = match types.get(from) {
            Type::Vector(vec_type) => match &vec_type.element {
                VectorElementType::Scalar(_) => Type::Vector(
                    VectorType {
                        element: VectorElementType::Scalar(Primitive::Bool),
                        length: vec_type.length,
                    },
                ),
                VectorElementType::Vector(v) => Type::Vector(
                    VectorType {
                        element: VectorElementType::Vector(Box::new(Type::vector_to_bool(v))),
                        length: vec_type.length,
                    },
                ),
            },
            _ => Type::Primitive(Primitive::Bool),
        };
        types.register_type(projected)
    }
}

/// Registers a copy of `ty`.
pub fn luisa_compute_ir_register_type(types: &mut TypeRegistry, ty: &Type) -> (h: TypeRef)
    requires
        old(types).wf(),
    ensures
        final(types).wf(),
        final(types).extends(old(types)),
        final(types).contains(h),
        final(types).type_of(h) == ty@,
{
    types.register_type(ty.clone())
}

} // verus!
