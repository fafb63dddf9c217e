use luisa_compute_ir::decode::{decode_const_data, decode_scalar, Fragment};
use luisa_compute_ir::types::{
    ArrayType, Primitive, StructType, Type, VectorElementType, VectorType,
};

fn render(fragments: &[Fragment]) -> String {
    let mut out = String::new();
    for f in fragments {
        match f {
            Fragment::Text(s) => out.push_str(s),
            Fragment::Float32(bits) => out.push_str(&format!("{}", f32::from_bits(*bits))),
            Fragment::Float64(bits) => out.push_str(&format!("{}", f64::from_bits(*bits))),
        }
    }
    out
}

fn decode(data: &[u8], ty: &Type) -> String {
    render(&decode_const_data(data, ty))
}

fn vector(p: Primitive, n: u32) -> Type {
    Type::Vector(VectorType { element: VectorElementType::Scalar(p), length: n })
}

#[test]
fn struct_of_int_and_float() {
    let ty = Type::Struct(StructType {
        fields: vec![Type::Primitive(Primitive::Int32), Type::Primitive(Primitive::Float32)],
        alignment: 4,
        size: 8,
    });
    let data = [0x01, 0x00, 0x00, 0x00, 0x00, 0x00, 0x80, 0x3f];
    assert_eq!(decode(&data, &ty), "{ int32_t(1), float(1) }");
}

#[test]
fn vector_of_three_ints() {
    let mut data = Vec::new();
    for v in [1i32, 2, 3] {
        data.extend_from_slice(&v.to_le_bytes());
    }
    assert_eq!(data.len(), 12);
    assert_eq!(decode(&data, &vector(Primitive::Int32, 3)), "lc_int3(1, 2, 3)");
}

#[test]
fn vector_ignores_padding_bytes() {
    let mut data = Vec::new();
    for v in [1i32, 2, 3, 99] {
        data.extend_from_slice(&v.to_le_bytes());
    }
    assert_eq!(decode(&data, &vector(Primitive::Int32, 3)), "lc_int3(1, 2, 3)");
}

#[test]
fn primitives_decode_to_typed_literals() {
    assert_eq!(decode(&[0], &Type::Primitive(Primitive::Bool)), "bool(false)");
    assert_eq!(decode(&[7], &Type::Primitive(Primitive::Bool)), "bool(true)");
    assert_eq!(decode(&(-2i16).to_le_bytes(), &Type::Primitive(Primitive::Int16)), "int16_t(-2)");
    assert_eq!(
        decode(&65535u16.to_le_bytes(), &Type::Primitive(Primitive::Uint16)),
        "uint16_t(65535)"
    );
    assert_eq!(
        decode(&i32::MIN.to_le_bytes(), &Type::Primitive(Primitive::Int32)),
        "int32_t(-2147483648)"
    );
    assert_eq!(
        decode(&u32::MAX.to_le_bytes(), &Type::Primitive(Primitive::Uint32)),
        "uint32_t(4294967295)"
    );
    assert_eq!(
        decode(&i64::MIN.to_le_bytes(), &Type::Primitive(Primitive::Int64)),
        "int64_t(-9223372036854775808)"
    );
    assert_eq!(
        decode(&i64::MAX.to_le_bytes(), &Type::Primitive(Primitive::Int64)),
        "int64_t(9223372036854775807)"
    );
    assert_eq!(
        decode(&u64::MAX.to_le_bytes(), &Type::Primitive(Primitive::Uint64)),
        "uint64_t(18446744073709551615)"
    );
    assert_eq!(decode(&0u64.to_le_bytes(), &Type::Primitive(Primitive::Uint64)), "uint64_t(0)");
    assert_eq!(
        decode(&2.5f32.to_le_bytes(), &Type::Primitive(Primitive::Float32)),
        "float(2.5)"
    );
    assert_eq!(
        decode(&(-0.125f64).to_le_bytes(), &Type::Primitive(Primitive::Float64)),
        "double(-0.125)"
    );
}

#[test]
fn decoding_the_bytes_of_a_value_gives_the_value() {
    for v in [0i32, 1, -1, 42, -12345, i32::MAX, i32::MIN] {
        assert_eq!(
            decode(&v.to_le_bytes(), &Type::Primitive(Primitive::Int32)),
            format!("int32_t({})", v)
        );
    }
    for v in [0u64, 9, 10, 99, 100, 1 << 40, u64::MAX] {
        assert_eq!(
            decode(&v.to_le_bytes(), &Type::Primitive(Primitive::Uint64)),
            format!("uint64_t({})", v)
        );
    }
    for v in [i16::MIN, -1, 0, 1, i16::MAX] {
        assert_eq!(
            decode(&v.to_le_bytes(), &Type::Primitive(Primitive::Int16)),
            format!("int16_t({})", v)
        );
    }
    for v in [0.0f32, 1.0, -3.75, 1e20] {
        assert_eq!(
            decode(&v.to_le_bytes(), &Type::Primitive(Primitive::Float32)),
            format!("float({})", v)
        );
        assert_eq!(
            decode_scalar(&v.to_le_bytes(), Primitive::Float32),
            Fragment::Float32(v.to_bits())
        );
    }
}

#[test]
fn vectors_of_every_lane_type() {
    assert_eq!(decode(&[1, 0], &vector(Primitive::Bool, 2)), "lc_bool2(true, false)");
    let shorts: Vec<u8> = [-1i16, 2].iter().flat_map(|v| v.to_le_bytes()).collect();
    assert_eq!(decode(&shorts, &vector(Primitive::Int16, 2)), "lc_short2(-1, 2)");
    let ushorts: Vec<u8> = [1u16, 65535].iter().flat_map(|v| v.to_le_bytes()).collect();
    assert_eq!(decode(&ushorts, &vector(Primitive::Uint16, 2)), "lc_ushort2(1, 65535)");
    let uints: Vec<u8> = [1u32, 2, 3, 4].iter().flat_map(|v| v.to_le_bytes()).collect();
    assert_eq!(decode(&uints, &vector(Primitive::Uint32, 4)), "lc_uint4(1, 2, 3, 4)");
    let longs: Vec<u8> = [-5i64, 6].iter().flat_map(|v| v.to_le_bytes()).collect();
    assert_eq!(decode(&longs, &vector(Primitive::Int64, 2)), "lc_longlong2(-5, 6)");
    let ulongs: Vec<u8> = [5u64, 6].iter().flat_map(|v| v.to_le_bytes()).collect();
    assert_eq!(decode(&ulongs, &vector(Primitive::Uint64, 2)), "lc_ulonglong2(5, 6)");
    let floats: Vec<u8> = [0.5f32, 1.5, 2.0].iter().flat_map(|v| v.to_le_bytes()).collect();
    assert_eq!(decode(&floats, &vector(Primitive::Float32, 3)), "lc_float3(0.5, 1.5, 2)");
    let doubles: Vec<u8> = [0.25f64, -1.0].iter().flat_map(|v| v.to_le_bytes()).collect();
    assert_eq!(decode(&doubles, &vector(Primitive::Float64, 2)), "lc_double2(0.25, -1)");
    assert_eq!(decode(&[], &vector(Primitive::Int32, 0)), "lc_int0()");
}

#[test]
fn arrays_and_nested_structs() {
    let inner = Type::Struct(StructType {
        fields: vec![Type::Primitive(Primitive::Uint16), Type::Primitive(Primitive::Bool)],
        alignment: 2,
        size: 3,
    });
    let ty = Type::Array(ArrayType { element: Box::new(inner), length: 2 });
    let data = [5, 0, 1, 6, 0, 0];
    assert_eq!(
        decode(&data, &ty),
        "{ { uint16_t(5), bool(true) }, { uint16_t(6), bool(false) } }"
    );
    let empty = Type::Struct(StructType { fields: vec![], alignment: 1, size: 0 });
    assert_eq!(decode(&[], &empty), "{  }");
    let ints = Type::Array(ArrayType {
        element: Box::new(Type::Primitive(Primitive::Int32)),
        length: 3,
    });
    let bytes: Vec<u8> = [7i32, -8, 9].iter().flat_map(|v| v.to_le_bytes()).collect();
    assert_eq!(decode(&bytes, &ints), "{ int32_t(7), int32_t(-8), int32_t(9) }");
}

#[test]
fn fragments_keep_floats_as_bits() {
    let out = decode_const_data(&1.0f32.to_le_bytes(), &Type::Primitive(Primitive::Float32));
    assert!(out.contains(&Fragment::Float32(0x3f80_0000)));
    let out = decode_const_data(&1.0f64.to_le_bytes(), &Type::Primitive(Primitive::Float64));
    assert!(out.contains(&Fragment::Float64(0x3ff0_0000_0000_0000)));
}

#[test]
fn shapes_that_cannot_be_decoded_are_refused() {
    let int = Type::Primitive(Primitive::Int32);
    assert!(luisa_compute_ir::decode::can_decode(&int, 4));
    assert!(luisa_compute_ir::decode::can_decode(&int, 9));
    assert!(!luisa_compute_ir::decode::can_decode(&int, 3));
    assert!(luisa_compute_ir::decode::can_decode(&vector(Primitive::Int16, 3), 6));
    assert!(!luisa_compute_ir::decode::can_decode(&vector(Primitive::Int16, 3), 5));
    let nested = Type::Vector(VectorType {
        element: VectorElementType::Vector(Box::new(VectorType {
            element: VectorElementType::Scalar(Primitive::Int32),
            length: 2,
        })),
        length: 2,
    });
    assert!(!luisa_compute_ir::decode::can_decode(&nested, 16));
    assert!(!luisa_compute_ir::decode::can_decode(&Type::Void, 0));
    assert!(!luisa_compute_ir::decode::can_decode(&Type::Opaque("x".to_string()), 0));
    let s = Type::Struct(StructType {
        fields: vec![Type::Primitive(Primitive::Int32), Type::Primitive(Primitive::Bool)],
        alignment: 4,
        size: 8,
    });
    assert!(luisa_compute_ir::decode::can_decode(&s, 5));
    assert!(!luisa_compute_ir::decode::can_decode(&s, 8));
    assert!(!luisa_compute_ir::decode::can_decode(&s, 4));
    let with_void = Type::Struct(StructType { fields: vec![Type::Void], alignment: 1, size: 0 });
    assert!(!luisa_compute_ir::decode::can_decode(&with_void, 0));
    let padded = Type::Array(ArrayType { element: Box::new(s), length: 2 });
    assert!(!luisa_compute_ir::decode::can_decode(&padded, 16));
    let packed = Type::Struct(StructType {
        fields: vec![Type::Primitive(Primitive::Int32), Type::Primitive(Primitive::Bool)],
        alignment: 1,
        size: 5,
    });
    let a = Type::Array(ArrayType { element: Box::new(packed), length: 2 });
    assert!(luisa_compute_ir::decode::can_decode(&a, 10));
    assert!(luisa_compute_ir::decode::can_decode(&a, 11));
    assert!(!luisa_compute_ir::decode::can_decode(&a, 9));
    assert_eq!(luisa_compute_ir::decode::try_decode_const_data(&[1, 2, 3], &int), None);
    assert_eq!(
        luisa_compute_ir::decode::try_decode_const_data(&[1, 0, 0, 0], &int).map(|f| render(&f)),
        Some("int32_t(1)".to_string())
    );
    assert_eq!(int.checked_size(), Some(4));
    assert_eq!(Type::Void.checked_size(), None);
    assert_eq!(vector(Primitive::Float32, 3).checked_size(), Some(16));
    let huge = Type::Array(ArrayType {
        element: Box::new(Type::Primitive(Primitive::Int64)),
        length: usize::MAX,
    });
    assert_eq!(huge.checked_size(), None);
    let matrix = Type::Matrix(luisa_compute_ir::types::MatrixType {
        element: VectorElementType::Scalar(Primitive::Float64),
        dimension: 3,
    });
    assert_eq!(matrix.checked_size(), None);
}
