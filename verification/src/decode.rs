//! Rendering of typed constant data as literal text of the generated source.
//!
//! The text is produced as a sequence of [`Fragment`]s: runs of characters,
//! and floating-point lanes that are handed out as their bit patterns and
//! printed by the caller.

use crate::text::{decimal, push_signed, push_unsigned};
use crate::types::{
    ceil3, ArrayType, Primitive, StructType, Type, TypeModel, VectorElementType, VectorType,
};
use vstd::arithmetic::power2::{lemma2_to64, lemma2_to64_rest, pow2};
use vstd::prelude::*;
use vstd::slice::slice_subrange;

verus! {

/// A piece of rendered text.
#[derive(Debug, PartialEq, Eq)]
pub enum Fragment {
    /// A run of characters.
    Text(String),
    /// A 32-bit float, given by its bit pattern.
    Float32(u32),
    /// A 64-bit float, given by its bit pattern.
    Float64(u64),
}

/// One position of the rendered text: a character, or a float that stands
/// where its decimal text is to be printed.
pub enum Glyph {
    Char(char),
    Float32(u32),
    Float64(u64),
}

/// The glyph of a character.
pub open spec fn glyph_of(c: char) -> Glyph {
    Glyph::Char(c)
}

/// The glyphs of a run of characters.
pub open spec fn plain(s: Seq<char>) -> Seq<Glyph> {
    Seq::new(s.len(), |i: int| glyph_of(s[i]))
}

impl Fragment {
    pub open spec fn glyphs(self) -> Seq<Glyph> {
        match self {
            Fragment::Text(s) => plain(s@),
            Fragment::Float32(bits) => seq![Glyph::Float32(bits)],
            Fragment::Float64(bits) => seq![Glyph::Float64(bits)],
        }
    }
}

/// The glyphs of a sequence of fragments, one after the other.
pub open spec fn glyphs(fragments: Seq<Fragment>) -> Seq<Glyph>
    decreases fragments.len(),
{
    if fragments.len() == 0 {
        Seq::empty()
    } else {
        glyphs(fragments.drop_last()) + fragments.last().glyphs()
    }
}

/// Glyphs that are all characters.
pub open spec fn is_plain(g: Seq<Glyph>) -> bool {
    forall|i: int| 0 <= i < g.len() ==> (#[trigger] g[i]) is Char
}

/// The items, separated by a comma and a space.
pub open spec fn join(items: Seq<Seq<Glyph>>) -> Seq<Glyph>
    decreases items.len(),
{
    if items.len() == 0 {
        Seq::empty()
    } else if items.len() == 1 {
        items[0]
    } else {
        join(items.drop_last()) + plain(", "@) + items.last()
    }
}

/// Value of the bytes from index `i` on, read as a little-endian number.
pub open spec fn le_from(bytes: Seq<u8>, i: int) -> nat
    decreases bytes.len() - i,
{
    if 0 <= i < bytes.len() {
        bytes[i] as nat + 256 * le_from(bytes, i + 1)
    } else {
        0
    }
}

/// Value of the bytes as an unsigned little-endian number.
pub open spec fn le_value(bytes: Seq<u8>) -> nat {
    le_from(bytes, 0)
}

/// Value of the bytes as a little-endian number in two's complement.
pub open spec fn le_signed(bytes: Seq<u8>) -> int {
    let half = pow2((8 * bytes.len() - 1) as nat);
    if le_value(bytes) >= half {
        le_value(bytes) - 2 * half
    } else {
        le_value(bytes) as int
    }
}

/// Name of the scalar type in the generated source.
pub open spec fn scalar_name(p: Primitive) -> Seq<char> {
    match p {
        Primitive::Bool => "bool"@,
        Primitive::Int16 => "int16_t"@,
        Primitive::Uint16 => "uint16_t"@,
        Primitive::Int32 => "int32_t"@,
        Primitive::Uint32 => "uint32_t"@,
        Primitive::Int64 => "int64_t"@,
        Primitive::Uint64 => "uint64_t"@,
        Primitive::Float32 => "float"@,
        Primitive::Float64 => "double"@,
    }
}

/// Name of the lane type in the vector constructors of the generated source.
pub open spec fn lane_name(p: Primitive) -> Seq<char> {
    match p {
        Primitive::Bool => "bool"@,
        Primitive::Int16 => "short"@,
        Primitive::Uint16 => "ushort"@,
        Primitive::Int32 => "int"@,
        Primitive::Uint32 => "uint"@,
        Primitive::Int64 => "longlong"@,
        Primitive::Uint64 => "ulonglong"@,
        Primitive::Float32 => "float"@,
        Primitive::Float64 => "double"@,
    }
}

/// The literal of one scalar, read from the first bytes of `data`.
pub open spec fn scalar_literal(data: Seq<u8>, p: Primitive) -> Seq<Glyph> {
    let bytes = data.subrange(0, p.spec_size());
    match p {
        Primitive::Bool => plain(
            if data[0] == 0 {
                "false"@
            } else {
                "true"@
            },
        ),
        Primitive::Int16 | Primitive::Int32 | Primitive::Int64 => plain(decimal(le_signed(bytes))),
        Primitive::Uint16 | Primitive::Uint32 | Primitive::Uint64 => plain(
            decimal(le_value(bytes) as int),
        ),
        Primitive::Float32 => seq![Glyph::Float32(le_value(bytes) as u32)],
        Primitive::Float64 => seq![Glyph::Float64(le_value(bytes) as u64)],
    }
}

/// Offset of field `i` in a struct whose fields lie one after the other.
pub open spec fn field_offset(fields: Seq<TypeModel>, i: int) -> int
    decreases i,
{
    if i <= 0 {
        0
    } else {
        field_offset(fields, i - 1) + fields[i - 1].size()
    }
}

impl TypeModel {
    /// Data of `len` bytes can be rendered as this type: scalars and vectors
    /// of scalars need at least their lanes, the fields of a struct must fill
    /// the data exactly, an array needs `length` elements.  Matrices, vectors
    /// of vectors, `Void`, `UserData` and opaque types are never rendered.
    pub open spec fn decodes(self, len: int) -> bool
        decreases self,
    {
        match self {
            TypeModel::Primitive(p) => p.spec_size() <= len,
            TypeModel::Vector(v) => v.element is Scalar && v.length * v.element.spec_size() <= len,
            TypeModel::Struct { fields, .. } => {
                &&& field_offset(fields, fields.len() as int) == len
                &&& forall|i: int|
                    0 <= i < fields.len() ==> {
                        &&& (#[trigger] fields[i]).has_size()
                        &&& fields[i].size_fits()
                        &&& fields[i].size() <= usize::MAX
                        &&& fields[i].decodes(fields[i].size())
                    }
            },
            TypeModel::Array { element, length } => {
                &&& element.has_size()
                &&& element.size_fits()
                &&& element.size() <= usize::MAX
                &&& length * element.size() <= len
                &&& length > 0 ==> element.decodes(element.size())
            },
            _ => false,
        }
    }

    /// The literal text of `data` read as this type.
    pub open spec fn literal(self, data: Seq<u8>) -> Seq<Glyph>
        decreases self, 0nat,
    {
        match self {
            TypeModel::Primitive(p) => plain(scalar_name(p) + "("@) + scalar_literal(data, p)
                + plain(")"@),
            TypeModel::Vector(v) => {
                let p = v.element.scalar();
                plain("lc_"@ + lane_name(p) + decimal(v.length as int) + "("@) + join(
                    lane_literals(p, v.length as nat, data),
                ) + plain(")"@)
            },
            TypeModel::Struct { fields, .. } => plain("{ "@) + join(field_literals(fields, data))
                + plain(" }"@),
            TypeModel::Array { element, length } => plain("{ "@) + join(
                element_literals(*element, length as nat, data),
            ) + plain(" }"@),
            _ => Seq::empty(),
        }
    }
}

/// The literals of the `n` lanes of a vector of scalars, each lane as wide
/// as the scalar.
pub open spec fn lane_literals(p: Primitive, n: nat, data: Seq<u8>) -> Seq<Seq<Glyph>> {
    Seq::new(
        n,
        |i: int| scalar_literal(data.subrange(i * p.spec_size(), (i + 1) * p.spec_size()), p),
    )
}

/// The literals of the fields of a struct, each read at its offset.
pub open spec fn field_literals(fields: Seq<TypeModel>, data: Seq<u8>) -> Seq<Seq<Glyph>>
    decreases fields, 1nat,
{
    Seq::new(
        fields.len(),
        |i: int|
            if 0 <= i < fields.len() {
                fields[i].literal(
                    data.subrange(field_offset(fields, i), field_offset(fields, i + 1)),
                )
            } else {
                Seq::empty()
            },
    )
}

/// The literals of the `n` elements of an array, each as wide as the element.
pub open spec fn element_literals(element: TypeModel, n: nat, data: Seq<u8>) -> Seq<Seq<Glyph>>
    decreases element, 1nat,
{
    Seq::new(
        n,
        |i: int| element.literal(data.subrange(i * element.size(), (i + 1) * element.size())),
    )
}

pub proof fn lemma_glyphs_push(fragments: Seq<Fragment>, f: Fragment)
    ensures
        glyphs(fragments.push(f)) == glyphs(fragments) + f.glyphs(),
{
    assert(fragments.push(f).drop_last() =~= fragments);
}

pub proof fn lemma_text_add(a: Seq<char>, b: Seq<char>)
    ensures
        plain(a + b) == plain(a) + plain(b),
{
    let l = plain(a + b);
    let r = plain(a) + plain(b);
    assert(l.len() == r.len());
    assert forall|i: int| 0 <= i < l.len() implies l[i] == r[i] by {
        if i < a.len() {
            assert((a + b)[i] == a[i]);
        } else {
            assert((a + b)[i] == b[i - a.len()]);
        }
    }
    assert(l =~= r);
}

/// Joining one more item: the separator stands before every item but the first.
pub proof fn lemma_join_step(items: Seq<Seq<Glyph>>, i: int)
    requires
        0 <= i < items.len(),
    ensures
        join(items.take(i + 1)) == if i == 0 {
            items[0]
        } else {
            join(items.take(i)) + plain(", "@) + items[i]
        },
{
    assert(items.take(i + 1).drop_last() =~= items.take(i));
}

fn push_string(out: &mut Vec<Fragment>, s: String)
    ensures
        glyphs(final(out)@) == glyphs(old(out)@) + plain(s@),
{
    proof {
        lemma_glyphs_push(out@, Fragment::Text(s));
    }
    out.push(Fragment::Text(s));
}

fn push_str(out: &mut Vec<Fragment>, s: &str)
    ensures
        glyphs(final(out)@) == glyphs(old(out)@) + plain(s@),
{
    push_string(out, String::from_str(s));
}

fn read_u16(data: &[u8]) -> (r: u64)
    requires
        data.len() >= 2,
    ensures
        r == le_value(data@.subrange(0, 2)),
        r < 0x1_0000,
{
    proof {
        reveal_with_fuel(le_from, 3);
    }
    let v1: u64 = data[1] as u64;
    let v0: u64 = data[0] as u64 + 256 * v1;
    v0
}

pub(crate) fn read_u32(data: &[u8]) -> (r: u64)
    requires
        data.len() >= 4,
    ensures
        r == le_value(data@.subrange(0, 4)),
        r < 0x1_0000_0000,
{
    proof {
        reveal_with_fuel(le_from, 5);
    }
    let v3: u64 = data[3] as u64;
    let v2: u64 = data[2] as u64 + 256 * v3;
    let v1: u64 = data[1] as u64 + 256 * v2;
    let v0: u64 = data[0] as u64 + 256 * v1;
    v0
}

fn read_u64(data: &[u8]) -> (r: u64)
    requires
        data.len() >= 8,
    ensures
        r == le_value(data@.subrange(0, 8)),
{
    proof {
        reveal_with_fuel(le_from, 9);
    }
    let v7: u64 = data[7] as u64;
    let v6: u64 = data[6] as u64 + 256 * v7;
    let v5: u64 = data[5] as u64 + 256 * v6;
    let v4: u64 = data[4] as u64 + 256 * v5;
    let v3: u64 = data[3] as u64 + 256 * v4;
    let v2: u64 = data[2] as u64 + 256 * v3;
    let v1: u64 = data[1] as u64 + 256 * v2;
    let v0: u64 = data[0] as u64 + 256 * v1;
    v0
}

fn scalar_name_of(p: Primitive) -> (s: &'static str)
    ensures
        s@ == scalar_name(p),
{
    match p {
        Primitive::Bool => "bool",
        Primitive::Int16 => "int16_t",
        Primitive::Uint16 => "uint16_t",
        Primitive::Int32 => "int32_t",
        Primitive::Uint32 => "uint32_t",
        Primitive::Int64 => "int64_t",
        Primitive::Uint64 => "uint64_t",
        Primitive::Float32 => "float",
        Primitive::Float64 => "double",
    }
}

fn lane_name_of(p: Primitive) -> (s: &'static str)
    ensures
        s@ == lane_name(p),
{
    match p {
        Primitive::Bool => "bool",
        Primitive::Int16 => "short",
        Primitive::Uint16 => "ushort",
        Primitive::Int32 => "int",
        Primitive::Uint32 => "uint",
        Primitive::Int64 => "longlong",
        Primitive::Uint64 => "ulonglong",
        Primitive::Float32 => "float",
        Primitive::Float64 => "double",
    }
}

/// Renders one scalar read from the first bytes of `data`.
pub fn decode_scalar(data: &[u8], p: Primitive) -> (f: Fragment)
    requires
        data.len() >= p.spec_size(),
    ensures
        f.glyphs() == scalar_literal(data@, p),
{
    proof {
        lemma2_to64();
        lemma2_to64_rest();
    }
    match p {
        Primitive::Bool => {
            if data[0] == 0 {
                Fragment::Text(String::from_str("false"))
            } else {
                Fragment::Text(String::from_str("true"))
            }
        },
        Primitive::Int16 => {
            let v = read_u16(data);
            let sv: i64 = if v >= 0x8000 {
                v as i64 - 0x1_0000
            } else {
                v as i64
            };
            let mut s = String::new();
            push_signed(&mut s, sv);
            assert(s@ =~= decimal(sv as int));
            Fragment::Text(s)
        },
        Primitive::Uint16 => {
            let v = read_u16(data);
            let mut s = String::new();
            push_unsigned(&mut s, v);
            assert(s@ =~= decimal(v as int));
            Fragment::Text(s)
        },
        Primitive::Int32 => {
            let v = read_u32(data);
            let sv: i64 = if v >= 0x8000_0000 {
                v as i64 - 0x1_0000_0000
            } else {
                v as i64
            };
            let mut s = String::new();
            push_signed(&mut s, sv);
            assert(s@ =~= decimal(sv as int));
            Fragment::Text(s)
        },
        Primitive::Uint32 => {
            let v = read_u32(data);
            let mut s = String::new();
            push_unsigned(&mut s, v);
            assert(s@ =~= decimal(v as int));
            Fragment::Text(s)
        },
        Primitive::Int64 => {
            let v = read_u64(data);
            let sv: i64 = if v >= 0x8000_0000_0000_0000 {
                ((v - 0x8000_0000_0000_0000) as i64) + i64::MIN
            } else {
                v as i64
            };
            let mut s = String::new();
            push_signed(&mut s, sv);
            assert(s@ =~= decimal(sv as int));
            Fragment::Text(s)
        },
        Primitive::Uint64 => {
            let v = read_u64(data);
            let mut s = String::new();
            push_unsigned(&mut s, v);
            assert(s@ =~= decimal(v as int));
            Fragment::Text(s)
        },
        Primitive::Float32 => {
            let v = read_u32(data);
            Fragment::Float32(v as u32)
        },
        Primitive::Float64 => {
            let v = read_u64(data);
            Fragment::Float64(v)
        },
    }
}

/// Sizes are not negative.
pub proof fn lemma_size_nonnegative(ty: TypeModel)
    ensures
        ty.size() >= 0,
    decreases ty,
{
    match ty {
        TypeModel::Vector(v) => {
            lemma_element_size_nonnegative(v.element);
            assert(v.element.spec_size() * v.lanes() >= 0) by (nonlinear_arith)
                requires
                    v.element.spec_size() >= 0,
                    v.lanes() >= 0,
            ;
        },
        TypeModel::Matrix(m) => {
            lemma_element_size_nonnegative(m.element);
            let c = ceil3(m.dimension as int) * m.dimension;
            assert(c >= 0) by (nonlinear_arith)
                requires
                    c == ceil3(m.dimension as int) * m.dimension,
                    ceil3(m.dimension as int) >= 0,
                    m.dimension >= 0,
            ;
            assert(m.element.spec_size() * c >= 0) by (nonlinear_arith)
                requires
                    m.element.spec_size() >= 0,
                    c >= 0,
            ;
        },
        TypeModel::Array { element, length } => {
            lemma_size_nonnegative(*element);
            assert(element.size() * length >= 0) by (nonlinear_arith)
                requires
                    element.size() >= 0,
                    length >= 0,
            ;
        },
        _ => {},
    }
}

pub proof fn lemma_element_size_nonnegative(e: VectorElementType)
    ensures
        e.spec_size() >= 0,
    decreases e,
{
    match e {
        VectorElementType::Scalar(_) => {},
        VectorElementType::Vector(v) => {
            lemma_element_size_nonnegative(v.element);
            assert(v.element.spec_size() * v.lanes() >= 0) by (nonlinear_arith)
                requires
                    v.element.spec_size() >= 0,
                    v.lanes() >= 0,
            ;
        },
    }
}

/// Field offsets grow with the index.
pub proof fn lemma_field_offset_grows(fields: Seq<TypeModel>, i: int, j: int)
    requires
        0 <= i <= j <= fields.len(),
    ensures
        0 <= field_offset(fields, i) <= field_offset(fields, j),
    decreases j,
{
    if j > 0 {
        lemma_size_nonnegative(fields[j - 1]);
        if i < j {
            lemma_field_offset_grows(fields, i, j - 1);
        } else {
            lemma_field_offset_grows(fields, i - 1, j - 1);
        }
    }
}

/// Renders `data` as a constant of type `ty`.
pub fn decode_const_data(data: &[u8], ty: &Type) -> (out: Vec<Fragment>)
    requires
        ty@.decodes(data.len() as int),
    ensures
        glyphs(out@) == ty@.literal(data@),
{
    let mut out: Vec<Fragment> = Vec::new();
    decode_into(data, ty, &mut out);
    assert(glyphs(Seq::<Fragment>::empty()) + ty@.literal(data@) =~= ty@.literal(data@));
    out
}

/// Appends to `out` the rendering of `data` as a constant of type `ty`.
pub fn decode_into(data: &[u8], ty: &Type, out: &mut Vec<Fragment>)
    requires
        ty@.decodes(data.len() as int),
    ensures
        glyphs(final(out)@) == glyphs(old(out)@) + ty@.literal(data@),
    decreases ty, 1nat,
{
    match ty {
        Type::Primitive(p) => {
            let mut head = String::from_str(scalar_name_of(*p));
            head.append("(");
            push_string(out, head);
            let f = decode_scalar(data, *p);
            proof {
                lemma_glyphs_push(out@, f);
            }
            out.push(f);
            push_str(out, ")");
            assert(glyphs(out@) =~= glyphs(old(out)@) + ty@.literal(data@));
        },
        Type::Vector(vt) => decode_vector_into(data, vt, out),
        Type::Struct(st) => decode_struct_into(data, st, out),
        Type::Array(at) => decode_array_into(data, at, out),
        _ => {},
    }
}

/// A vector of scalars: the constructor named after the lane type and the
/// length, applied to the lanes.
fn decode_vector_into(data: &[u8], vt: &VectorType, out: &mut Vec<Fragment>)
    requires
        TypeModel::Vector(*vt).decodes(data.len() as int),
    ensures
        glyphs(final(out)@) == glyphs(old(out)@) + TypeModel::Vector(*vt).literal(data@),
{
    let ghost before = glyphs(out@);
    let p = match &vt.element {
        VectorElementType::Scalar(p) => *p,
        VectorElementType::Vector(_) => Primitive::Bool,
    };
    let len = vt.length;
    let size = p.size();
    let mut head = String::from_str("lc_");
    head.append(lane_name_of(p));
    push_unsigned(&mut head, len as u64);
    head.append("(");
    push_string(out, head);
    let ghost items = lane_literals(p, len as nat, data@);
    let ghost opened = glyphs(out@);
    assert(opened =~= before + plain("lc_"@ + lane_name(p) + decimal(len as int) + "("@));
    assert(join(items.take(0)) =~= Seq::<Glyph>::empty());
    let mut i: u32 = 0;
    while i < len
        invariant
            i <= len,
            size == p.spec_size(),
            len * size <= data.len(),
            items == lane_literals(p, len as nat, data@),
            glyphs(out@) == opened + join(items.take(i as int)),
        decreases len - i,
    {
        assert((i + 1) * size <= len * size) by (nonlinear_arith)
            requires
                i < len,
                size >= 0,
        ;
        assert(i * size + size == (i + 1) * size) by (nonlinear_arith);
        if i > 0 {
            push_str(out, ", ");
        }
        let start = (i as usize) * size;
        let lane = slice_subrange(data, start, start + size);
        let f = decode_scalar(lane, p);
        proof {
            lemma_glyphs_push(out@, f);
            lemma_join_step(items, i as int);
        }
        out.push(f);
        assert(glyphs(out@) =~= opened + join(items.take(i as int + 1)));
        i += 1;
    }
    assert(items.take(len as int) =~= items);
    push_str(out, ")");
    assert(glyphs(out@) =~= before + TypeModel::Vector(*vt).literal(data@));
}

/// A struct: the fields one after the other, in braces.
fn decode_struct_into(data: &[u8], st: &StructType, out: &mut Vec<Fragment>)
    requires
        Type::Struct(*st)@.decodes(data.len() as int),
    ensures
        glyphs(final(out)@) == glyphs(old(out)@) + Type::Struct(*st)@.literal(data@),
    decreases st, 0nat,
{
    let ghost before = glyphs(out@);
    let ghost ty = Type::Struct(*st);
    let ghost fields = ty@->Struct_fields;
    let ghost items = field_literals(fields, data@);
    push_str(out, "{ ");
    let ghost opened = glyphs(out@);
    assert(join(items.take(0)) =~= Seq::<Glyph>::empty());
    let mut offset: usize = 0;
    let mut i: usize = 0;
    while i < st.fields.len()
        invariant
            i <= st.fields.len(),
            ty == Type::Struct(*st),
            ty@.decodes(data.len() as int),
            fields == ty@->Struct_fields,
            fields.len() == st.fields.len(),
            items.len() == fields.len(),
            forall|k: int|
                0 <= k < fields.len() ==> #[trigger] items[k] == fields[k].literal(
                    data@.subrange(field_offset(fields, k), field_offset(fields, k + 1)),
                ),
            offset == field_offset(fields, i as int),
            glyphs(out@) == opened + join(items.take(i as int)),
        decreases st.fields.len() - i,
    {
        let f = &st.fields[i];
        assert(f@ == fields[i as int]);
        assert(decreases_to!(st => st.fields[i as int]));
        proof {
            lemma_field_offset_grows(fields, i as int + 1, fields.len() as int);
            lemma_field_offset_grows(fields, i as int, i as int + 1);
        }
        let len = f.size();
        if i > 0 {
            push_str(out, ", ");
        }
        let part = slice_subrange(data, offset, offset + len);
        proof {
            lemma_join_step(items, i as int);
        }
        decode_into(part, f, out);
        assert(glyphs(out@) =~= opened + join(items.take(i as int + 1)));
        offset += len;
        i += 1;
    }
    assert(items.take(fields.len() as int) =~= items);
    push_str(out, " }");
    assert(glyphs(out@) =~= before + (plain("{ "@) + join(items) + plain(" }"@)));
    assert(ty@.literal(data@) == plain("{ "@) + join(items) + plain(" }"@));
}

/// An array: the elements one after the other, in braces.
fn decode_array_into(data: &[u8], at: &ArrayType, out: &mut Vec<Fragment>)
    requires
        Type::Array(*at)@.decodes(data.len() as int),
    ensures
        glyphs(final(out)@) == glyphs(old(out)@) + Type::Array(*at)@.literal(data@),
    decreases at, 0nat,
{
    let ghost before = glyphs(out@);
    let ghost ty = Type::Array(*at);
    let ghost element = at.element@;
    if at.length == 0 {
        push_str(out, "{ ");
        push_str(out, " }");
        assert(join(element_literals(element, 0, data@)) =~= Seq::<Glyph>::empty());
        assert(glyphs(out@) =~= before + ty@.literal(data@));
        return ;
    }
    let size = at.element.size();
    let ghost items = element_literals(element, at.length as nat, data@);
    push_str(out, "{ ");
    let ghost opened = glyphs(out@);
    assert(join(items.take(0)) =~= Seq::<Glyph>::empty());
    let mut i: usize = 0;
    while i < at.length
        invariant
            i <= at.length,
            ty == Type::Array(*at),
            element == at.element@,
            element.decodes(size as int),
            size == element.size(),
            at.length * size <= data.len(),
            items == element_literals(element, at.length as nat, data@),
            glyphs(out@) == opened + join(items.take(i as int)),
        decreases at.length - i,
    {
        assert((i + 1) * size <= at.length * size) by (nonlinear_arith)
            requires
                i < at.length,
                size >= 0,
        ;
        assert(i * size + size == (i + 1) * size) by (nonlinear_arith);
        if i > 0 {
            push_str(out, ", ");
        }
        let start = i * size;
        let part = slice_subrange(data, start, start + size);
        proof {
            lemma_join_step(items, i as int);
        }
        decode_into(part, &at.element, out);
        assert(glyphs(out@) =~= opened + join(items.take(i as int + 1)));
        i += 1;
    }
    assert(items.take(at.length as int) =~= items);
    push_str(out, " }");
    assert(glyphs(out@) =~= before + (plain("{ "@) + join(items) + plain(" }"@)));
    assert(ty@ == TypeModel::Array { element: Box::new(element), length: at.length });
    assert(ty@.literal(data@) == plain("{ "@) + join(items) + plain(" }"@));
}

/// The `n` bytes of the little-endian form of `v`.
pub open spec fn le_bytes(v: nat, n: nat) -> Seq<u8>
    decreases n,
{
    if n == 0 {
        Seq::empty()
    } else {
        seq![(v % 256) as u8] + le_bytes(v / 256, (n - 1) as nat)
    }
}

/// The bytes of a scalar of kind `p` with value `v`: for the signed kinds
/// in two's complement, for the floating-point kinds the bytes of the bit
/// pattern `v`.
pub open spec fn scalar_bytes(p: Primitive, v: int) -> Seq<u8> {
    let n = p.spec_size() as nat;
    if v < 0 {
        le_bytes((v + pow2(8 * n)) as nat, n)
    } else {
        le_bytes(v as nat, n)
    }
}

/// The values that a scalar of kind `p` can have; for the floating-point
/// kinds, the bit patterns.
pub open spec fn scalar_range(p: Primitive, v: int) -> bool {
    match p {
        Primitive::Bool => v == 0 || v == 1,
        Primitive::Int16 | Primitive::Int32 | Primitive::Int64 => -pow2(
            (8 * p.spec_size() - 1) as nat,
        ) <= v < pow2((8 * p.spec_size() - 1) as nat),
        _ => 0 <= v < pow2((8 * p.spec_size()) as nat),
    }
}

/// The literal of the value `v` of a scalar of kind `p`.
pub open spec fn value_literal(p: Primitive, v: int) -> Seq<Glyph> {
    match p {
        Primitive::Bool => plain(
            if v == 0 {
                "false"@
            } else {
                "true"@
            },
        ),
        Primitive::Float32 => seq![Glyph::Float32(v as u32)],
        Primitive::Float64 => seq![Glyph::Float64(v as u64)],
        _ => plain(decimal(v)),
    }
}

proof fn lemma_le_from_shift(x: u8, rest: Seq<u8>, i: int)
    requires
        0 <= i <= rest.len(),
    ensures
        le_from(seq![x] + rest, i + 1) == le_from(rest, i),
    decreases rest.len() - i,
{
    let bytes = seq![x] + rest;
    if i < rest.len() {
        lemma_le_from_shift(x, rest, i + 1);
        assert(bytes[i + 1] == rest[i]);
    }
}

/// Reading the little-endian bytes of a number gives the number back.
pub proof fn lemma_le_value_of_bytes(v: nat, n: nat)
    requires
        v < pow2(8 * n),
    ensures
        le_bytes(v, n).len() == n,
        le_value(le_bytes(v, n)) == v,
    decreases n,
{
    if n == 0 {
        vstd::arithmetic::power2::lemma2_to64();
    } else {
        let rest = le_bytes(v / 256, (n - 1) as nat);
        vstd::arithmetic::power2::lemma_pow2_adds(8, (8 * (n - 1)) as nat);
        vstd::arithmetic::power2::lemma2_to64();
        assert(pow2(8 * n) == 256 * pow2((8 * (n - 1)) as nat));
        assert(v / 256 < pow2((8 * (n - 1)) as nat)) by (nonlinear_arith)
            requires
                v < 256 * pow2((8 * (n - 1)) as nat),
        ;
        lemma_le_value_of_bytes(v / 256, (n - 1) as nat);
        let bytes = seq![(v % 256) as u8] + rest;
        lemma_le_from_shift((v % 256) as u8, rest, 0);
        assert(bytes[0] == (v % 256) as u8);
        assert(le_from(bytes, 0) == bytes[0] as nat + 256 * le_from(bytes, 1));
    }
}

/// Rendering the little-endian bytes of a scalar gives the literal of its
/// value in the scalar type: the text of an integer is its decimal text,
/// that of a boolean is `false` or `true`, and a floating-point number is
/// handed out with the bits it had.
pub proof fn lemma_literal_of_scalar_bytes(p: Primitive, v: int)
    requires
        scalar_range(p, v),
    ensures
        scalar_bytes(p, v).len() == p.spec_size(),
        TypeModel::Primitive(p).decodes(p.spec_size()),
        TypeModel::Primitive(p).literal(scalar_bytes(p, v)) == plain(scalar_name(p) + "("@)
            + value_literal(p, v) + plain(")"@),
{
    lemma2_to64();
    lemma2_to64_rest();
    let n = p.spec_size() as nat;
    let stored: nat = if v < 0 {
        (v + pow2(8 * n)) as nat
    } else {
        v as nat
    };
    let bytes = scalar_bytes(p, v);
    lemma_le_value_of_bytes(stored, n);
    assert(bytes.subrange(0, p.spec_size()) =~= bytes);
    assert(le_value(bytes) == stored);
    match p {
        Primitive::Bool => {
            reveal_with_fuel(le_bytes, 2);
            assert(bytes[0] == stored);
        },
        _ => {},
    }
    assert(scalar_literal(bytes, p) == value_literal(p, v));
}

/// Whether no float is among the fragments.
pub open spec fn all_text(fragments: Seq<Fragment>) -> bool {
    forall|i: int| 0 <= i < fragments.len() ==> (#[trigger] fragments[i]) is Text
}

/// The characters of fragments that are all text.
pub open spec fn text_of(fragments: Seq<Fragment>) -> Seq<char>
    decreases fragments.len(),
{
    if fragments.len() == 0 {
        Seq::empty()
    } else {
        text_of(fragments.drop_last()) + (match fragments.last() {
            Fragment::Text(s) => s@,
            _ => Seq::empty(),
        })
    }
}

/// The text of fragments among which there is no float; `None` where
/// there is one, which the caller has to print.
pub fn fragments_to_string(fragments: &Vec<Fragment>) -> (r: Option<String>)
    ensures
        r is Some == all_text(fragments@),
        r matches Some(s) ==> s@ == text_of(fragments@) && plain(s@) == glyphs(fragments@),
{
    let mut out = String::new();
    let mut i: usize = 0;
    assert(fragments@.take(0) =~= Seq::<Fragment>::empty());
    while i < fragments.len()
        invariant
            i <= fragments.len(),
            all_text(fragments@.take(i as int)),
            out@ == text_of(fragments@.take(i as int)),
            plain(out@) == glyphs(fragments@.take(i as int)),
        decreases fragments.len() - i,
    {
        let ghost before = fragments@.take(i as int);
        let ghost now = fragments@.take(i as int + 1);
        proof {
            assert(now.drop_last() =~= before);
            assert(now.last() == fragments@[i as int]);
        }
        match &fragments[i] {
            Fragment::Text(s) => {
                proof {
                    lemma_text_add(out@, s@);
                }
                out.append(s.as_str());
                assert forall|j: int| 0 <= j < now.len() implies (#[trigger] now[j]) is Text by {
                    if j < i {
                        assert(before[j] is Text);
                    }
                }
            },
            _ => {
                assert(!(fragments@[i as int] is Text));
                return None;
            },
        }
        i += 1;
    }
    assert(fragments@.take(fragments@.len() as int) =~= fragments@);
    Some(out)
}

/// Whether data of `len` bytes can be rendered as a constant of type `ty`.
#[verifier::loop_isolation(false)]
pub fn can_decode(ty: &Type, len: usize) -> (r: bool)
    ensures
        r == ty@.decodes(len as int),
    decreases ty,
{
    match ty {
        Type::Primitive(p) => p.size() <= len,
        Type::Vector(vt) => match &vt.element {
            VectorElementType::Scalar(p) => match (vt.length as usize).checked_mul(p.size()) {
                Some(needed) => needed <= len,
                None => false,
            },
            VectorElementType::Vector(_) => false,
        },
        Type::Struct(st) => {
            let ghost fields = ty@->Struct_fields;
            let mut offset: usize = 0;
            let mut i: usize = 0;
            while i < st.fields.len()
                invariant
                    i <= st.fields.len(),
                    fields.len() == st.fields.len(),
                    offset == field_offset(fields, i as int),
                    forall|j: int|
                        0 <= j < i ==> {
                            &&& (#[trigger] fields[j]).has_size()
                            &&& fields[j].size_fits()
                            &&& fields[j].size() <= usize::MAX
                            &&& fields[j].decodes(fields[j].size())
                        },
                decreases st.fields.len() - i,
            {
                let f = &st.fields[i];
                assert(f@ == fields[i as int]);
                assert(decreases_to!(st.fields => st.fields[i as int]));
                let size = match f.checked_size() {
                    Some(size) => size,
                    None => {
                        assert(!(fields[i as int].has_size() && fields[i as int].size_fits()));
                        return false;
                    },
                };
                if !can_decode(f, size) {
                    assert(!fields[i as int].decodes(fields[i as int].size()));
                    return false;
                }
                offset = match offset.checked_add(size) {
                    Some(sum) => sum,
                    None => {
                        proof {
                            lemma_field_offset_grows(fields, i as int + 1, fields.len() as int);
                        }
                        return false;
                    },
                };
                i += 1;
            }
            offset == len
        },
        Type::Array(at) => {
            let size = match at.element.checked_size() {
                Some(size) => size,
                None => {
                    return false;
                },
            };
            match at.length.checked_mul(size) {
                Some(needed) => {
                    if needed > len {
                        return false;
                    }
                },
                None => {
                    return false;
                },
            }
            if at.length == 0 {
                true
            } else {
                can_decode(&at.element, size)
            }
        },
        _ => false,
    }
}

/// Renders `data` as a constant of type `ty` where it has the shape of the
/// type; `None` where it has not.
pub fn try_decode_const_data(data: &[u8], ty: &Type) -> (r: Option<Vec<Fragment>>)
    ensures
        r is Some == ty@.decodes(data.len() as int),
        r matches Some(out) ==> glyphs(out@) == ty@.literal(data@),
{
    if can_decode(ty, data.len()) {
        Some(decode_const_data(data, ty))
    } else {
        None
    }
}

} // verus!
