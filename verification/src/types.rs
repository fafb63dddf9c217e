//! The type system of the IR: scalars, vectors, matrices, arrays, structs and
//! opaque nominal types, with their size, alignment and shape queries.
//!
//! A [`Type`] is a tree.  Its mathematical model is [`TypeModel`], reached with
//! `@`; two types are structurally equal exactly when their models are equal.

use vstd::prelude::*;

verus! {

/// Scalar element kinds.
#[derive(Clone, Copy, Debug, PartialEq, Eq, Hash, Structural)]
pub enum Primitive {
    Bool,
    Int16,
    Uint16,
    Int32,
    Uint32,
    Int64,
    Uint64,
    Float32,
    Float64,
}

/// Number of lanes a vector of `n` non-boolean scalars occupies: the lanes
/// beyond the last full group of four are kept when there are at most two of
/// them, and padded to a whole group when there are three.
pub open spec fn ceil3(n: int) -> int {
    4 * (n / 4) + (if n % 4 <= 2 {
        n % 4
    } else {
        4
    })
}

impl Primitive {
    /// Size of the scalar in bytes.
    pub open spec fn spec_size(self) -> int {
        match self {
            Primitive::Bool => 1,
            Primitive::Int16 | Primitive::Uint16 => 2,
            Primitive::Int32 | Primitive::Uint32 | Primitive::Float32 => 4,
            Primitive::Int64 | Primitive::Uint64 | Primitive::Float64 => 8,
        }
    }

    /// The 32- and 64-bit floating-point kinds.
    pub open spec fn spec_is_float(self) -> bool {
        self == Primitive::Float32 || self == Primitive::Float64
    }

    /// The 32- and 64-bit integer kinds; the 16-bit kinds are not counted.
    pub open spec fn spec_is_int(self) -> bool {
        self == Primitive::Int32 || self == Primitive::Uint32 || self == Primitive::Int64 || self
            == Primitive::Uint64
    }

    pub open spec fn spec_is_bool(self) -> bool {
        self == Primitive::Bool
    }

    pub fn size(&self) -> (r: usize)
        ensures
            r == self.spec_size(),
    {
        match self {
            Primitive::Bool => 1,
            Primitive::Int16 => 2,
            Primitive::Uint16 => 2,
            Primitive::Int32 => 4,
            Primitive::Uint32 => 4,
            Primitive::Int64 => 8,
            Primitive::Uint64 => 8,
            Primitive::Float32 => 4,
            Primitive::Float64 => 8,
        }
    }
}

/// Element of a vector or matrix: a scalar, or a nested vector.
#[derive(Debug, PartialEq, Eq, Hash)]
pub enum VectorElementType {
    Scalar(Primitive),
    Vector(Box<VectorType>),
}

#[derive(Debug, PartialEq, Eq, Hash)]
pub struct VectorType {
    pub element: VectorElementType,
    pub length: u32,
}

#[derive(Debug, PartialEq, Eq, Hash)]
pub struct MatrixType {
    pub element: VectorElementType,
    pub dimension: u32,
}

/// A struct type.  `size` and `alignment` are authoritative: they are given
/// by whoever builds the type and never recomputed from the fields.
#[derive(Debug, PartialEq, Eq, Hash)]
pub struct StructType {
    pub fields: Vec<Type>,
    pub alignment: usize,
    pub size: usize,
}

#[derive(Debug, PartialEq, Eq, Hash)]
pub struct ArrayType {
    pub element: Box<Type>,
    pub length: usize,
}

#[derive(Debug, PartialEq, Eq, Hash)]
pub enum Type {
    Void,
    UserData,
    Primitive(Primitive),
    Vector(VectorType),
    Matrix(MatrixType),
    Struct(StructType),
    Array(ArrayType),
    Opaque(String),
}

/// Mathematical model of a [`Type`].
pub enum TypeModel {
    Void,
    UserData,
    Primitive(Primitive),
    Vector(VectorType),
    Matrix(MatrixType),
    Struct { fields: Seq<TypeModel>, alignment: usize, size: usize },
    Array { element: Box<TypeModel>, length: usize },
    Opaque(Seq<char>),
}

impl VectorElementType {
    /// The scalar kind at the bottom of the nesting.
    pub open spec fn scalar(self) -> Primitive
        decreases self,
    {
        match self {
            VectorElementType::Scalar(p) => p,
            VectorElementType::Vector(v) => v.element.scalar(),
        }
    }

    /// Size in bytes of one element.
    pub open spec fn spec_size(self) -> int
        decreases self,
    {
        match self {
            VectorElementType::Scalar(p) => p.spec_size(),
            VectorElementType::Vector(v) => v.element.spec_size() * v.lanes(),
        }
    }

    /// Every size computed on the way to `spec_size` fits in a `usize`.
    pub open spec fn size_fits(self) -> bool
        decreases self,
    {
        match self {
            VectorElementType::Scalar(_) => true,
            VectorElementType::Vector(v) => v.element.size_fits() && v.lanes() <= usize::MAX
                && v.element.spec_size() * v.lanes() <= usize::MAX,
        }
    }

    pub open spec fn spec_to_type(self) -> TypeModel {
        match self {
            VectorElementType::Scalar(p) => TypeModel::Primitive(p),
            VectorElementType::Vector(v) => TypeModel::Vector(*v),
        }
    }
}

impl VectorType {
    /// Number of element slots the vector occupies in memory.  Vectors of
    /// booleans and vectors of vectors are not padded.
    pub open spec fn lanes(self) -> int {
        match self.element {
            VectorElementType::Scalar(Primitive::Bool) => self.length as int,
            VectorElementType::Scalar(_) => ceil3(self.length as int),
            VectorElementType::Vector(_) => self.length as int,
        }
    }

    pub open spec fn spec_size(self) -> int {
        self.element.spec_size() * self.lanes()
    }

    pub open spec fn size_fits(self) -> bool {
        self.element.size_fits() && self.lanes() <= usize::MAX && self.spec_size() <= usize::MAX
    }

    /// The boolean vector with the shape of the innermost vector of `self`.
    pub open spec fn spec_to_bool(self) -> VectorType
        decreases self,
    {
        match self.element {
            VectorElementType::Scalar(_) => VectorType {
                element: VectorElementType::Scalar(Primitive::Bool),
                length: self.length,
            },
            VectorElementType::Vector(v) => v.spec_to_bool(),
        }
    }
}

impl MatrixType {
    /// Matrices are laid out for 32-bit floats of dimension 2, 3 or 4 only.
    pub open spec fn has_size(self) -> bool {
        self.element == VectorElementType::Scalar(Primitive::Float32) && 2 <= self.dimension <= 4
    }

    /// Column-major storage, each column a padded vector of `dimension` lanes.
    pub open spec fn spec_size(self) -> int {
        self.element.spec_size() * (ceil3(self.dimension as int) * self.dimension)
    }

    pub open spec fn spec_column(self) -> VectorType {
        VectorType { element: self.element, length: self.dimension }
    }
}

impl TypeModel {
    /// The types that have a layout: everything but `Void`, `UserData` and
    /// opaque types, with the matrices restricted to those that have a size.
    pub open spec fn has_size(self) -> bool
        decreases self,
    {
        match self {
            TypeModel::Void | TypeModel::UserData | TypeModel::Opaque(_) => false,
            TypeModel::Primitive(_) | TypeModel::Vector(_) | TypeModel::Struct { .. } => true,
            TypeModel::Matrix(m) => m.has_size(),
            TypeModel::Array { element, .. } => element.has_size(),
        }
    }

    pub open spec fn size(self) -> int
        decreases self,
    {
        match self {
            TypeModel::Void | TypeModel::UserData | TypeModel::Opaque(_) => 0,
            TypeModel::Primitive(p) => p.spec_size(),
            TypeModel::Vector(v) => v.spec_size(),
            TypeModel::Matrix(m) => m.spec_size(),
            TypeModel::Struct { size, .. } => size as int,
            TypeModel::Array { element, length } => element.size() * length,
        }
    }

    /// Every size computed on the way to `size` fits in a `usize`.
    pub open spec fn size_fits(self) -> bool
        decreases self,
    {
        match self {
            TypeModel::Vector(v) => v.size_fits(),
            TypeModel::Array { element, length } => element.size_fits() && element.size() * length
                <= usize::MAX,
            _ => true,
        }
    }

    /// The types that have an alignment.
    pub open spec fn has_alignment(self) -> bool
        decreases self,
    {
        match self {
            TypeModel::Void | TypeModel::UserData | TypeModel::Opaque(_) => false,
            TypeModel::Array { element, .. } => element.has_alignment(),
            _ => true,
        }
    }

    pub open spec fn alignment_fits(self) -> bool
        decreases self,
    {
        match self {
            TypeModel::Vector(v) => v.element.size_fits(),
            TypeModel::Matrix(m) => m.element.size_fits(),
            TypeModel::Array { element, .. } => element.alignment_fits(),
            _ => true,
        }
    }

    /// Alignment in bytes: that of the element for vectors, matrices and
    /// arrays, the declared one for structs.
    pub open spec fn alignment(self) -> int
        decreases self,
    {
        match self {
            TypeModel::Void | TypeModel::UserData | TypeModel::Opaque(_) => 0,
            TypeModel::Primitive(p) => p.spec_size(),
            TypeModel::Struct { alignment, .. } => alignment as int,
            TypeModel::Vector(v) => v.element.spec_size(),
            TypeModel::Matrix(m) => m.element.spec_size(),
            TypeModel::Array { element, .. } => element.alignment(),
        }
    }

    /// Types of which the shape queries are asked.
    pub open spec fn has_shape(self) -> bool {
        !(self is Void || self is UserData || self is Opaque)
    }

    /// Number of components.
    pub open spec fn dimension(self) -> int {
        match self {
            TypeModel::Void | TypeModel::UserData | TypeModel::Opaque(_) => 0,
            TypeModel::Primitive(_) => 1,
            TypeModel::Vector(v) => v.length as int,
            TypeModel::Matrix(m) => m.dimension as int,
            TypeModel::Struct { fields, .. } => fields.len() as int,
            TypeModel::Array { length, .. } => length as int,
        }
    }

    /// The element type; a struct has none.
    pub open spec fn element(self) -> Option<TypeModel> {
        match self {
            TypeModel::Void | TypeModel::UserData | TypeModel::Opaque(_) => None,
            TypeModel::Primitive(p) => Some(self),
            TypeModel::Vector(v) => Some(v.element.spec_to_type()),
            TypeModel::Matrix(m) => Some(m.element.spec_to_type()),
            TypeModel::Struct { .. } => None,
            TypeModel::Array { element, .. } => Some(*element),
        }
    }

    /// The types that have components to extract, with the indices that name one.
    pub open spec fn has_component(self, i: int) -> bool {
        match self {
            TypeModel::Vector(_) | TypeModel::Matrix(_) | TypeModel::Array { .. } => true,
            TypeModel::Struct { fields, .. } => 0 <= i < fields.len(),
            _ => false,
        }
    }

    /// Type of the `i`-th component: the element of a vector or array, the
    /// column of a matrix, the `i`-th field of a struct.
    pub open spec fn component(self, i: int) -> TypeModel {
        match self {
            TypeModel::Vector(v) => v.element.spec_to_type(),
            TypeModel::Matrix(m) => TypeModel::Vector(m.spec_column()),
            TypeModel::Array { element, .. } => *element,
            TypeModel::Struct { fields, .. } => fields[i],
            _ => TypeModel::Void,
        }
    }

    pub open spec fn is_float(self) -> bool {
        match self {
            TypeModel::Primitive(p) => p.spec_is_float(),
            TypeModel::Vector(v) => v.element.scalar().spec_is_float(),
            TypeModel::Matrix(m) => m.element.scalar().spec_is_float(),
            _ => false,
        }
    }

    pub open spec fn is_int(self) -> bool {
        match self {
            TypeModel::Primitive(p) => p.spec_is_int(),
            TypeModel::Vector(v) => v.element.scalar().spec_is_int(),
            TypeModel::Matrix(m) => m.element.scalar().spec_is_int(),
            _ => false,
        }
    }

    pub open spec fn is_bool(self) -> bool {
        match self {
            TypeModel::Primitive(p) => p.spec_is_bool(),
            TypeModel::Vector(v) => v.element.scalar().spec_is_bool(),
            TypeModel::Matrix(m) => m.element.scalar().spec_is_bool(),
            _ => false,
        }
    }
}

impl Type {
    pub open spec fn model(&self) -> TypeModel
        decreases self,
    {
        match self {
            Type::Void => TypeModel::Void,
            Type::UserData => TypeModel::UserData,
            Type::Primitive(p) => TypeModel::Primitive(*p),
            Type::Vector(v) => TypeModel::Vector(*v),
            Type::Matrix(m) => TypeModel::Matrix(*m),
            Type::Struct(s) => TypeModel::Struct {
                fields: Seq::new(
                    s.fields.len() as nat,
                    |i: int|
                        if 0 <= i < s.fields.len() {
                            s.fields[i].model()
                        } else {
                            TypeModel::Void
                        },
                ),
                alignment: s.alignment,
                size: s.size,
            },
            Type::Array(a) => TypeModel::Array {
                element: Box::new(a.element.model()),
                length: a.length,
            },
            Type::Opaque(name) => TypeModel::Opaque(name@),
        }
    }
}

impl View for Type {
    type V = TypeModel;

    open spec fn view(&self) -> TypeModel {
        self.model()
    }
}

impl Clone for VectorElementType {
    fn clone(&self) -> (r: Self)
        ensures
            r == *self,
        decreases self,
    {
        match self {
            VectorElementType::Scalar(p) => VectorElementType::Scalar(*p),
            VectorElementType::Vector(v) => {
                let inner = VectorType { element: v.element.clone(), length: v.length };
                VectorElementType::Vector(Box::new(inner))
            },
        }
    }
}

impl Clone for VectorType {
    fn clone(&self) -> (r: Self)
        ensures
            r == *self,
    {
        VectorType { element: self.element.clone(), length: self.length }
    }
}

impl Clone for MatrixType {
    fn clone(&self) -> (r: Self)
        ensures
            r == *self,
    {
        MatrixType { element: self.element.clone(), dimension: self.dimension }
    }
}

impl Clone for Type {
    #[verifier::loop_isolation(false)]
    fn clone(&self) -> (r: Self)
        ensures
            r@ == self@,
        decreases self,
    {
        match self {
            Type::Void => Type::Void,
            Type::UserData => Type::UserData,
            Type::Primitive(p) => Type::Primitive(*p),
            Type::Vector(v) => Type::Vector(v.clone()),
            Type::Matrix(m) => Type::Matrix(m.clone()),
            Type::Struct(s) => {
                let mut fields: Vec<Type> = Vec::new();
                let mut i: usize = 0;
                while i < s.fields.len()
                    invariant
                        i <= s.fields.len(),
                        fields.len() == i,
                        forall|j: int|
                            0 <= j < i ==> (#[trigger] fields[j]).model() == s.fields[j].model(),
                    decreases s.fields.len() - i,
                {
                    assert(decreases_to!(s.fields => s.fields[i as int]));
                    fields.push(s.fields[i].clone());
                    i += 1;
                }
                let r = Type::Struct(StructType { fields, alignment: s.alignment, size: s.size });
                proof {
                    assert(r.model()->Struct_fields =~= self.model()->Struct_fields);
                }
                r
            },
            Type::Array(a) => Type::Array(
                ArrayType { element: Box::new((*a.element).clone()), length: a.length },
            ),
            Type::Opaque(name) => Type::Opaque(name.clone()),
        }
    }
}

impl VectorElementType {
    pub fn as_primitive(&self) -> (r: Option<Primitive>)
        ensures
            r == (match *self {
                VectorElementType::Scalar(p) => Some(p),
                VectorElementType::Vector(_) => None,
            }),
    {
        match self {
            VectorElementType::Scalar(p) => Some(*p),
            _ => None,
        }
    }

    pub fn is_float(&self) -> (r: bool)
        ensures
            r == self.scalar().spec_is_float(),
        decreases self,
    {
        match self {
            VectorElementType::Scalar(Primitive::Float32) => true,
            VectorElementType::Scalar(Primitive::Float64) => true,
            VectorElementType::Vector(v) => v.element.is_float(),
            _ => false,
        }
    }

    pub fn is_int(&self) -> (r: bool)
        ensures
            r == self.scalar().spec_is_int(),
        decreases self,
    {
        match self {
            VectorElementType::Scalar(Primitive::Int32) => true,
            VectorElementType::Scalar(Primitive::Uint32) => true,
            VectorElementType::Scalar(Primitive::Int64) => true,
            VectorElementType::Scalar(Primitive::Uint64) => true,
            VectorElementType::Vector(v) => v.element.is_int(),
            _ => false,
        }
    }

    pub fn is_bool(&self) -> (r: bool)
        ensures
            r == self.scalar().spec_is_bool(),
        decreases self,
    {
        match self {
            VectorElementType::Scalar(Primitive::Bool) => true,
            VectorElementType::Vector(v) => v.element.is_bool(),
            _ => false,
        }
    }

    /// The element as a type of its own.
    pub fn to_type(&self) -> (r: Type)
        ensures
            r@ == self.spec_to_type(),
    {
        match self {
            VectorElementType::Scalar(p) => Type::Primitive(*p),
            VectorElementType::Vector(v) => Type::Vector(
                VectorType { element: v.element.clone(), length: v.length },
            ),
        }
    }

    pub fn size(&self) -> (r: usize)
        requires
            self.size_fits(),
        ensures
            r == self.spec_size(),
        decreases self,
    {
        match self {
            VectorElementType::Scalar(p) => p.size(),
            VectorElementType::Vector(v) => {
                let el_sz = v.element.size();
                let len = vector_lanes(&v.element, v.length);
                el_sz * len
            },
        }
    }
}

/// `ceil3` of a vector length.
fn padded_lanes(length: u32) -> (r: u64)
    ensures
        r == ceil3(length as int),
{
    let n = length as u64;
    let four = n / 4;
    let rem = n % 4;
    if rem <= 2 {
        four * 4 + rem
    } else {
        four * 4 + 4
    }
}

/// Number of element slots of a vector with this element and length.
fn vector_lanes(element: &VectorElementType, length: u32) -> (r: usize)
    requires
        (VectorType { element: *element, length }).lanes() <= usize::MAX,
    ensures
        r == (VectorType { element: *element, length }).lanes(),
{
    match element {
        VectorElementType::Scalar(Primitive::Bool) => length as usize,
        VectorElementType::Scalar(_) => padded_lanes(length) as usize,
        VectorElementType::Vector(_) => length as usize,
    }
}

impl VectorType {
    /// Size in bytes, with the padding rule of [`VectorType::lanes`].
    pub fn size(&self) -> (r: usize)
        requires
            self.size_fits(),
        ensures
            r == self.spec_size(),
    {
        let el_sz = self.element.size();
        let len = vector_lanes(&self.element, self.length);
        el_sz * len
    }

    /// The scalar element of a vector of scalars.
    pub fn element(&self) -> (r: Primitive)
        requires
            self.element is Scalar,
        ensures
            self.element == VectorElementType::Scalar(r),
    {
        match &self.element {
            VectorElementType::Scalar(s) => *s,
            VectorElementType::Vector(_) => Primitive::Bool,
        }
    }
}

impl MatrixType {
    pub fn size(&self) -> (r: usize)
        requires
            self.has_size(),
        ensures
            r == self.spec_size(),
            r == 4 * ceil3(self.dimension as int) * self.dimension,
    {
        let columns: usize = if self.dimension == 2 {
            2
        } else {
            4
        };
        let len: usize = columns * (self.dimension as usize);
        assert(columns == ceil3(self.dimension as int));
        assert(4 * (ceil3(self.dimension as int) * self.dimension) == 4 * ceil3(
            self.dimension as int,
        ) * self.dimension) by (nonlinear_arith);
        4 * len
    }

    /// The type of one column.
    pub fn column(&self) -> (r: Type)
        ensures
            r@ == TypeModel::Vector(self.spec_column()),
    {
        Type::Vector(VectorType { element: self.element.clone(), length: self.dimension })
    }

    /// The scalar element of a matrix of scalars.
    pub fn element(&self) -> (r: Primitive)
        requires
            self.element is Scalar,
        ensures
            self.element == VectorElementType::Scalar(r),
    {
        match &self.element {
            VectorElementType::Scalar(s) => *s,
            VectorElementType::Vector(_) => Primitive::Bool,
        }
    }
}

impl VectorElementType {
    /// Structural equality.
    pub fn same(&self, other: &VectorElementType) -> (b: bool)
        ensures
            b == (*self == *other),
        decreases self,
    {
        match self {
            VectorElementType::Scalar(p) => match other {
                VectorElementType::Scalar(q) => *p == *q,
                _ => false,
            },
            VectorElementType::Vector(v) => match other {
                VectorElementType::Vector(w) => v.length == w.length && v.element.same(&w.element),
                _ => false,
            },
        }
    }
}

impl VectorType {
    /// Structural equality.
    pub fn same(&self, other: &VectorType) -> (b: bool)
        ensures
            b == (*self == *other),
    {
        self.length == other.length && self.element.same(&other.element)
    }
}

impl MatrixType {
    /// Structural equality.
    pub fn same(&self, other: &MatrixType) -> (b: bool)
        ensures
            b == (*self == *other),
    {
        self.dimension == other.dimension && self.element.same(&other.element)
    }
}

impl Type {
    /// Structural equality, over all fields.
    #[verifier::loop_isolation(false)]
    pub fn same(&self, other: &Type) -> (b: bool)
        ensures
            b == (self@ == other@),
        decreases self,
    {
        match self {
            Type::Void => matches!(other, Type::Void),
            Type::UserData => matches!(other, Type::UserData),
            Type::Primitive(a) => match other {
                Type::Primitive(b) => *a == *b,
                _ => false,
            },
            Type::Vector(a) => match other {
                Type::Vector(b) => a.same(b),
                _ => false,
            },
            Type::Matrix(a) => match other {
                Type::Matrix(b) => a.same(b),
                _ => false,
            },
            Type::Array(a) => match other {
                Type::Array(b) => a.length == b.length && a.element.same(&b.element),
                _ => false,
            },
            Type::Opaque(a) => match other {
                Type::Opaque(b) => *a == *b,
                _ => false,
            },
            Type::Struct(a) => match other {
                Type::Struct(b) => {
                    if a.alignment != b.alignment || a.size != b.size || a.fields.len()
                        != b.fields.len() {
                        proof {
                            assert(self@->Struct_fields.len() == a.fields.len());
                            assert(other@->Struct_fields.len() == b.fields.len());
                        }
                        return false;
                    }
                    let mut i: usize = 0;
                    while i < a.fields.len()
                        invariant
                            i <= a.fields.len(),
                            forall|j: int|
                                0 <= j < i ==> (#[trigger] a.fields[j]).model()
                                    == b.fields[j].model(),
                        decreases a.fields.len() - i,
                    {
                        assert(decreases_to!(a.fields => a.fields[i as int]));
                        if !a.fields[i].same(&b.fields[i]) {
                            proof {
                                assert(self@->Struct_fields[i as int] == a.fields[i as int].model());
                                assert(other@->Struct_fields[i as int]
                                    == b.fields[i as int].model());
                            }
                            return false;
                        }
                        i += 1;
                    }
                    proof {
                        assert(self@->Struct_fields =~= other@->Struct_fields);
                    }
                    true
                },
                _ => false,
            },
        }
    }

    /// Type of the `i`-th component.
    pub fn extract(&self, i: usize) -> (r: Type)
        requires
            self@.has_component(i as int),
        ensures
            r@ == self@.component(i as int),
    {
        match self {
            Type::Vector(v) => v.element.to_type(),
            Type::Matrix(mt) => mt.column(),
            Type::Array(arr) => (*arr.element).clone(),
            Type::Struct(s) => s.fields[i].clone(),
            _ => Type::Void,
        }
    }

    /// Size in bytes.
    pub fn size(&self) -> (r: usize)
        requires
            self@.has_size(),
            self@.size_fits(),
        ensures
            r == self@.size(),
        decreases self,
    {
        match self {
            Type::Primitive(t) => t.size(),
            Type::Struct(t) => t.size,
            Type::Vector(t) => t.size(),
            Type::Matrix(t) => t.size(),
            Type::Array(t) => t.element.size() * t.length,
            _ => 0,
        }
    }

    /// The element type, where there is one.
    pub fn element(&self) -> (r: Option<Type>)
        requires
            self@.has_shape(),
        ensures
            r is Some == self@.element() is Some,
            r matches Some(t) ==> Some(t@) == self@.element(),
    {
        match self {
            Type::Primitive(p) => Some(Type::Primitive(*p)),
            Type::Vector(vec_type) => Some(vec_type.element.to_type()),
            Type::Matrix(mat_type) => Some(mat_type.element.to_type()),
            Type::Array(arr_type) => Some((*arr_type.element).clone()),
            _ => None,
        }
    }

    /// Number of components.
    pub fn dimension(&self) -> (r: usize)
        requires
            self@.has_shape(),
        ensures
            r == self@.dimension(),
    {
        match self {
            Type::Primitive(_) => 1,
            Type::Vector(vec_type) => vec_type.length as usize,
            Type::Matrix(mat_type) => mat_type.dimension as usize,
            Type::Struct(struct_type) => struct_type.fields.len(),
            Type::Array(arr_type) => arr_type.length,
            _ => 0,
        }
    }

    /// Alignment in bytes.
    pub fn alignment(&self) -> (r: usize)
        requires
            self@.has_alignment(),
            self@.alignment_fits(),
        ensures
            r == self@.alignment(),
        decreases self,
    {
        match self {
            Type::Primitive(t) => t.size(),
            Type::Struct(t) => t.alignment,
            Type::Vector(t) => t.element.size(),
            Type::Matrix(t) => t.element.size(),
            Type::Array(t) => t.element.alignment(),
            _ => 0,
        }
    }

    /// The boolean vector with the shape of the innermost vector of `from`.
    pub fn vector_to_bool(from: &VectorType) -> (r: VectorType)
        ensures
            r == from.spec_to_bool(),
        decreases from,
    {
        match &from.element {
            VectorElementType::Scalar(_) => VectorType {
                element: VectorElementType::Scalar(Primitive::Bool),
                length: from.length,
            },
            VectorElementType::Vector(v) => Type::vector_to_bool(v),
        }
    }

    pub fn is_opaque(&self, name: &str) -> (r: bool)
        ensures
            r == (self@ == TypeModel::Opaque(name@)),
    {
        match self {
            Type::Opaque(name_) => {
                let wanted = String::from_str(name);
                *name_ == wanted
            },
            _ => false,
        }
    }

    pub fn is_primitive(&self) -> (r: bool)
        ensures
            r == self@ is Primitive,
    {
        match self {
            Type::Primitive(_) => true,
            _ => false,
        }
    }

    pub fn is_struct(&self) -> (r: bool)
        ensures
            r == self@ is Struct,
    {
        match self {
            Type::Struct(_) => true,
            _ => false,
        }
    }

    pub fn is_float(&self) -> (r: bool)
        ensures
            r == self@.is_float(),
    {
        match self {
            Type::Primitive(p) => match p {
                Primitive::Float32 | Primitive::Float64 => true,
                _ => false,
            },
            Type::Vector(v) => v.element.is_float(),
            Type::Matrix(m) => m.element.is_float(),
            _ => false,
        }
    }

    pub fn is_bool(&self) -> (r: bool)
        ensures
            r == self@.is_bool(),
    {
        match self {
            Type::Primitive(p) => match p {
                Primitive::Bool => true,
                _ => false,
            },
            Type::Vector(v) => v.element.is_bool(),
            Type::Matrix(m) => m.element.is_bool(),
            _ => false,
        }
    }

    pub fn is_int(&self) -> (r: bool)
        ensures
            r == self@.is_int(),
    {
        match self {
            Type::Primitive(p) => match p {
                Primitive::Int32 | Primitive::Uint32 | Primitive::Int64 | Primitive::Uint64 => true,
                _ => false,
            },
            Type::Vector(v) => v.element.is_int(),
            Type::Matrix(m) => m.element.is_int(),
            _ => false,
        }
    }

    pub fn is_matrix(&self) -> (r: bool)
        ensures
            r == self@ is Matrix,
    {
        match self {
            Type::Matrix(_) => true,
            _ => false,
        }
    }

    pub fn is_array(&self) -> (r: bool)
        ensures
            r == self@ is Array,
    {
        match self {
            Type::Array(_) => true,
            _ => false,
        }
    }

    pub fn is_vector(&self) -> (r: bool)
        ensures
            r == self@ is Vector,
    {
        match self {
            Type::Vector(_) => true,
            _ => false,
        }
    }
}

/// A vector of `n` scalars other than booleans, `n` from 1 to 16, takes the
/// size of the scalar times `ceil3(n)`; a vector of `n` booleans takes `n` bytes.
pub proof fn lemma_vector_sizing(p: Primitive, n: u32)
    requires
        1 <= n <= 16,
    ensures
        (VectorType { element: VectorElementType::Scalar(p), length: n }).size_fits(),
        p != Primitive::Bool ==> (VectorType {
            element: VectorElementType::Scalar(p),
            length: n,
        }).spec_size() == p.spec_size() * ceil3(n as int),
        p == Primitive::Bool ==> (VectorType {
            element: VectorElementType::Scalar(p),
            length: n,
        }).spec_size() == n,
        ceil3(n as int) <= 16,
{
}

/// Number of element slots of a vector with this element and length, where
/// it fits in a `usize`.
fn checked_lanes(element: &VectorElementType, length: u32) -> (r: Option<usize>)
    ensures
        r is Some == ((VectorType { element: *element, length }).lanes() <= usize::MAX),
        r matches Some(n) ==> n == (VectorType { element: *element, length }).lanes(),
{
    let lanes: u64 = match element {
        VectorElementType::Scalar(Primitive::Bool) => length as u64,
        VectorElementType::Scalar(_) => padded_lanes(length),
        VectorElementType::Vector(_) => length as u64,
    };
    if lanes > usize::MAX as u64 {
        None
    } else {
        Some(lanes as usize)
    }
}

impl VectorElementType {
    /// The size in bytes, where it can be computed without overflow.
    pub fn checked_size(&self) -> (r: Option<usize>)
        ensures
            r is Some == self.size_fits(),
            r matches Some(s) ==> s == self.spec_size(),
        decreases self,
    {
        match self {
            VectorElementType::Scalar(p) => Some(p.size()),
            VectorElementType::Vector(v) => {
                match v.element.checked_size() {
                    Some(el_sz) => match checked_lanes(&v.element, v.length) {
                        Some(len) => el_sz.checked_mul(len),
                        None => None,
                    },
                    None => None,
                }
            },
        }
    }
}

impl VectorType {
    /// The size in bytes, where it can be computed without overflow.
    pub fn checked_size(&self) -> (r: Option<usize>)
        ensures
            r is Some == self.size_fits(),
            r matches Some(s) ==> s == self.spec_size(),
    {
        match self.element.checked_size() {
            Some(el_sz) => match checked_lanes(&self.element, self.length) {
                Some(len) => el_sz.checked_mul(len),
                None => None,
            },
            None => None,
        }
    }
}

impl Type {
    /// The size in bytes of a type that has one, where it can be computed
    /// without overflow; `None` otherwise.
    pub fn checked_size(&self) -> (r: Option<usize>)
        ensures
            r is Some == (self@.has_size() && self@.size_fits()),
            r matches Some(s) ==> s == self@.size(),
        decreases self,
    {
        match self {
            Type::Primitive(t) => Some(t.size()),
            Type::Struct(t) => Some(t.size),
            Type::Vector(t) => t.checked_size(),
            Type::Matrix(t) => {
                let lays_out = match &t.element {
                    VectorElementType::Scalar(Primitive::Float32) => 2 <= t.dimension
                        && t.dimension <= 4,
                    _ => false,
                };
                if lays_out {
                    Some(t.size())
                } else {
                    None
                }
            },
            Type::Array(t) => match t.element.checked_size() {
                Some(el_sz) => el_sz.checked_mul(t.length),
                None => None,
            },
            _ => None,
        }
    }
}

} // verus!
