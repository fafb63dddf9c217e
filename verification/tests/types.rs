use luisa_compute_ir::registry::{TypeRef, TypeRegistry};
use luisa_compute_ir::types::{
    ArrayType, MatrixType, Primitive, StructType, Type, VectorElementType, VectorType,
};

fn vector(p: Primitive, n: u32) -> VectorType {
    VectorType { element: VectorElementType::Scalar(p), length: n }
}

fn ceil3(n: usize) -> usize {
    4 * (n / 4) + if n % 4 <= 2 { n % 4 } else { 4 }
}

const PRIMITIVES: [Primitive; 9] = [
    Primitive::Bool,
    Primitive::Int16,
    Primitive::Uint16,
    Primitive::Int32,
    Primitive::Uint32,
    Primitive::Int64,
    Primitive::Uint64,
    Primitive::Float32,
    Primitive::Float64,
];

#[test]
fn primitive_sizes() {
    let sizes = [1usize, 2, 2, 4, 4, 8, 8, 4, 8];
    for (p, s) in PRIMITIVES.iter().zip(sizes.iter()) {
        assert_eq!(p.size(), *s);
        assert_eq!(Type::Primitive(*p).size(), *s);
        assert_eq!(Type::Primitive(*p).alignment(), *s);
        assert_eq!(Type::Primitive(*p).dimension(), 1);
    }
}

#[test]
fn vector_sizing_all_lengths() {
    for p in PRIMITIVES.iter() {
        for n in 1u32..=16 {
            let size = vector(*p, n).size();
            if *p == Primitive::Bool {
                assert_eq!(size, n as usize);
            } else {
                assert_eq!(size, p.size() * ceil3(n as usize));
            }
        }
    }
}

#[test]
fn vector_padding_exact_values() {
    assert_eq!(vector(Primitive::Float32, 1).size(), 4);
    assert_eq!(vector(Primitive::Float32, 2).size(), 8);
    assert_eq!(vector(Primitive::Float32, 3).size(), 16);
    assert_eq!(vector(Primitive::Float32, 4).size(), 16);
    assert_eq!(vector(Primitive::Float32, 5).size(), 20);
    assert_eq!(vector(Primitive::Float32, 7).size(), 32);
    assert_eq!(vector(Primitive::Int64, 3).size(), 32);
    assert_eq!(vector(Primitive::Bool, 3).size(), 3);
    assert_eq!(vector(Primitive::Int16, 0).size(), 0);
}

#[test]
fn vector_of_vectors_is_not_padded() {
    let inner = vector(Primitive::Float32, 3);
    let outer = VectorType { element: VectorElementType::Vector(Box::new(inner)), length: 3 };
    assert_eq!(outer.size(), 16 * 3);
    assert_eq!(outer.element.size(), 16);
    assert!(outer.element.is_float());
    assert!(!outer.element.is_int());
    assert!(!outer.element.is_bool());
    assert_eq!(outer.element.as_primitive(), None);
}

#[test]
fn matrix_sizes() {
    let m = |d| MatrixType { element: VectorElementType::Scalar(Primitive::Float32), dimension: d };
    assert_eq!(m(2).size(), 16);
    assert_eq!(m(3).size(), 48);
    assert_eq!(m(4).size(), 64);
    assert_eq!(Type::Matrix(m(3)).size(), 48);
    assert_eq!(Type::Matrix(m(3)).alignment(), 4);
    assert_eq!(Type::Matrix(m(3)).dimension(), 3);
    assert_eq!(m(3).column(), Type::Vector(vector(Primitive::Float32, 3)));
    assert_eq!(m(3).element(), Primitive::Float32);
}

#[test]
fn struct_size_and_alignment_are_the_declared_ones() {
    let s = Type::Struct(StructType {
        fields: vec![Type::Primitive(Primitive::Int32), Type::Primitive(Primitive::Float64)],
        alignment: 16,
        size: 48,
    });
    assert_eq!(s.size(), 48);
    assert_eq!(s.alignment(), 16);
    assert_eq!(s.dimension(), 2);
    assert!(s.is_struct());
    assert_eq!(s.extract(1), Type::Primitive(Primitive::Float64));
    assert_eq!(s.element(), None);
}

#[test]
fn array_queries() {
    let a = Type::Array(ArrayType {
        element: Box::new(Type::Vector(vector(Primitive::Float32, 3))),
        length: 5,
    });
    assert_eq!(a.size(), 80);
    assert_eq!(a.alignment(), 4);
    assert_eq!(a.dimension(), 5);
    assert!(a.is_array());
    assert_eq!(a.extract(2), Type::Vector(vector(Primitive::Float32, 3)));
    assert_eq!(a.element(), Some(Type::Vector(vector(Primitive::Float32, 3))));
}

#[test]
fn vector_queries() {
    let v = Type::Vector(vector(Primitive::Uint32, 4));
    assert!(v.is_vector());
    assert!(v.is_int());
    assert!(!v.is_float());
    assert!(!v.is_bool());
    assert!(!v.is_primitive());
    assert!(!v.is_matrix());
    assert_eq!(v.dimension(), 4);
    assert_eq!(v.element(), Some(Type::Primitive(Primitive::Uint32)));
    assert_eq!(v.extract(0), Type::Primitive(Primitive::Uint32));
    assert_eq!(vector(Primitive::Uint32, 4).element(), Primitive::Uint32);
}

#[test]
fn sixteen_bit_integers_are_not_counted_as_int() {
    assert!(!Type::Primitive(Primitive::Int16).is_int());
    assert!(!Type::Primitive(Primitive::Uint16).is_int());
    assert!(Type::Primitive(Primitive::Int64).is_int());
    assert!(Type::Primitive(Primitive::Bool).is_bool());
    assert!(Type::Primitive(Primitive::Float64).is_float());
}

#[test]
fn opaque_names() {
    let t = Type::Opaque("Accel".to_string());
    assert!(t.is_opaque("Accel"));
    assert!(!t.is_opaque("Buffer"));
    assert!(!Type::Void.is_opaque("Accel"));
}

#[test]
fn vector_to_bool_takes_the_innermost_shape() {
    let inner = vector(Primitive::Float32, 3);
    assert_eq!(Type::vector_to_bool(&inner), vector(Primitive::Bool, 3));
    let outer = VectorType { element: VectorElementType::Vector(Box::new(inner)), length: 2 };
    assert_eq!(Type::vector_to_bool(&outer), vector(Primitive::Bool, 3));
}

#[test]
fn clone_and_same_are_structural() {
    let s = Type::Struct(StructType {
        fields: vec![
            Type::Primitive(Primitive::Int32),
            Type::Array(ArrayType { element: Box::new(Type::Opaque("x".to_string())), length: 2 }),
        ],
        alignment: 4,
        size: 12,
    });
    let c = s.clone();
    assert_eq!(c, s);
    assert!(c.same(&s));
    let other = Type::Struct(StructType {
        fields: vec![Type::Primitive(Primitive::Int32)],
        alignment: 4,
        size: 12,
    });
    assert!(!other.same(&s));
    assert!(!Type::Void.same(&Type::UserData));
}

#[test]
fn registering_twice_gives_one_handle() {
    let mut types = TypeRegistry::new();
    let before = types.len();
    let a = types.register_type(Type::Vector(vector(Primitive::Float32, 3)));
    let b = types.register_type(Type::Vector(vector(Primitive::Float32, 3)));
    assert_eq!(a, b);
    assert_eq!(types.len(), before + 1);
    assert_eq!(types.get(a).size(), 16);
    assert_eq!(types.get(a).alignment(), 4);
    let c = Type::vector(&mut types, Primitive::Float32, 3);
    assert_eq!(c, a);
    let d = Type::vector(&mut types, Primitive::Float32, 4);
    assert_ne!(d, a);
}

#[test]
fn builtin_types_have_fixed_handles() {
    let mut types = TypeRegistry::new();
    assert_eq!(types.len(), 11);
    assert_eq!(types.register_type(Type::Void), Type::void());
    assert_eq!(types.register_type(Type::UserData), Type::userdata());
    for p in PRIMITIVES.iter() {
        assert_eq!(types.register_type(Type::Primitive(*p)), Type::primitive(*p));
        assert_eq!(*types.get(Type::primitive(*p)), Type::Primitive(*p));
    }
    assert_eq!(types.len(), 11);
    assert_eq!(Type::void(), TypeRef(0));
    assert!(Type::primitive(Primitive::Int32).is_primitive_int());
    assert!(Type::primitive(Primitive::Uint64).is_primitive_int());
    assert!(!Type::primitive(Primitive::Int16).is_primitive_int());
    assert!(!Type::primitive(Primitive::Float32).is_primitive_int());
}

#[test]
fn convenience_constructors_register() {
    let mut types = TypeRegistry::new();
    let m = Type::matrix(&mut types, Primitive::Float32, 4);
    assert!(types.get(m).is_matrix());
    let o = Type::opaque(&mut types, "Ray".to_string());
    assert!(types.get(o).is_opaque("Ray"));
    let vv = Type::vector_vector(&mut types, vector(Primitive::Float32, 2), 3);
    assert_eq!(types.get(vv).dimension(), 3);
    let mv = Type::matrix_vector(&mut types, vector(Primitive::Float32, 2), 2);
    assert!(types.get(mv).is_matrix());
    let f3 = Type::vector(&mut types, Primitive::Float32, 3);
    let b3 = Type::bool(&mut types, f3);
    assert_eq!(*types.get(b3), Type::Vector(vector(Primitive::Bool, 3)));
    let b = Type::bool(&mut types, Type::primitive(Primitive::Float32));
    assert_eq!(b, Type::primitive(Primitive::Bool));
    let bvv = Type::bool(&mut types, vv);
    assert_eq!(
        *types.get(bvv),
        Type::Vector(VectorType {
            element: VectorElementType::Vector(Box::new(vector(Primitive::Bool, 2))),
            length: 3
        })
    );
    let again = luisa_compute_ir::registry::luisa_compute_ir_register_type(
        &mut types,
        &Type::Opaque("Ray".to_string()),
    );
    assert_eq!(again, o);
}
