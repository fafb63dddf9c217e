//! The text by which types are shown.

use crate::text::{decimal, push_unsigned};
use crate::types::{
    ArrayType, MatrixType, Primitive, StructType, Type, TypeModel, VectorElementType, VectorType,
};
use vstd::prelude::*;

verus! {

impl Primitive {
    pub open spec fn spec_name(self) -> Seq<char> {
        match self {
            Primitive::Bool => "bool"@,
            Primitive::Int16 => "i16"@,
            Primitive::Uint16 => "u16"@,
            Primitive::Int32 => "i32"@,
            Primitive::Uint32 => "u32"@,
            Primitive::Int64 => "i64"@,
            Primitive::Uint64 => "u64"@,
            Primitive::Float32 => "f32"@,
            Primitive::Float64 => "f64"@,
        }
    }

    /// The name of the scalar.
    pub fn name(&self) -> (s: &'static str)
        ensures
            s@ == self.spec_name(),
    {
        match self {
            Primitive::Bool => "bool",
            Primitive::Int16 => "i16",
            Primitive::Uint16 => "u16",
            Primitive::Int32 => "i32",
            Primitive::Uint32 => "u32",
            Primitive::Int64 => "i64",
            Primitive::Uint64 => "u64",
            Primitive::Float32 => "f32",
            Primitive::Float64 => "f64",
        }
    }

    pub fn to_string(&self) -> (s: String)
        ensures
            s@ == self.spec_name(),
    {
        String::from_str(self.name())
    }
}

impl VectorElementType {
    /// A scalar is shown by its name, a vector as a vector.
    pub open spec fn text(self) -> Seq<char>
        decreases self,
    {
        match self {
            VectorElementType::Scalar(p) => p.spec_name(),
            VectorElementType::Vector(v) => "Vec<"@ + v.element.text() + ";"@ + decimal(
                v.length as int,
            ) + ">"@,
        }
    }

    fn push_text(&self, out: &mut String)
        ensures
            final(out)@ == old(out)@ + self.text(),
        decreases self,
    {
        match self {
            VectorElementType::Scalar(p) => out.append(p.name()),
            VectorElementType::Vector(v) => {
                out.append("Vec<");
                v.element.push_text(out);
                out.append(";");
                push_unsigned(out, v.length as u64);
                out.append(">");
                assert(out@ =~= old(out)@ + self.text());
            },
        }
    }

    pub fn to_string(&self) -> (s: String)
        ensures
            s@ == self.text(),
    {
        let mut s = String::new();
        self.push_text(&mut s);
        assert(s@ =~= self.text());
        s
    }
}

impl VectorType {
    /// `Vec<` element `;` length `>`.
    pub open spec fn text(self) -> Seq<char> {
        "Vec<"@ + self.element.text() + ";"@ + decimal(self.length as int) + ">"@
    }

    fn push_text(&self, out: &mut String)
        ensures
            final(out)@ == old(out)@ + self.text(),
    {
        out.append("Vec<");
        self.element.push_text(out);
        out.append(";");
        push_unsigned(out, self.length as u64);
        out.append(">");
        assert(out@ =~= old(out)@ + self.text());
    }

    pub fn to_string(&self) -> (s: String)
        ensures
            s@ == self.text(),
    {
        let mut s = String::new();
        self.push_text(&mut s);
        assert(s@ =~= self.text());
        s
    }
}

impl MatrixType {
    /// `Mat<` element `;` dimension `>`.
    pub open spec fn text(self) -> Seq<char> {
        "Mat<"@ + self.element.text() + ";"@ + decimal(self.dimension as int) + ">"@
    }

    fn push_text(&self, out: &mut String)
        ensures
            final(out)@ == old(out)@ + self.text(),
    {
        out.append("Mat<");
        self.element.push_text(out);
        out.append(";");
        push_unsigned(out, self.dimension as u64);
        out.append(">");
        assert(out@ =~= old(out)@ + self.text());
    }

    pub fn to_string(&self) -> (s: String)
        ensures
            s@ == self.text(),
    {
        let mut s = String::new();
        self.push_text(&mut s);
        assert(s@ =~= self.text());
        s
    }
}

/// The texts of the first `k` fields, each followed by a comma.
pub open spec fn fields_text(fields: Seq<TypeModel>, k: int) -> Seq<char>
    decreases fields, k,
{
    if 0 < k <= fields.len() {
        fields_text(fields, k - 1) + fields[k - 1].text() + ","@
    } else {
        Seq::empty()
    }
}

impl TypeModel {
    /// The text of the type: `void`, `userdata`, the name of a scalar,
    /// `Vec<e;n>`, `Mat<e;n>`, `Struct<` fields `>` with a comma after each
    /// field, `Arr<e; n>`, or the name of an opaque type.
    pub open spec fn text(self) -> Seq<char>
        decreases self,
    {
        match self {
            TypeModel::Void => "void"@,
            TypeModel::UserData => "userdata"@,
            TypeModel::Primitive(p) => p.spec_name(),
            TypeModel::Vector(v) => v.text(),
            TypeModel::Matrix(m) => m.text(),
            TypeModel::Struct { fields, .. } => "Struct<"@ + fields_text(fields, fields.len() as int)
                + ">"@,
            TypeModel::Array { element, length } => "Arr<"@ + element.text() + "; "@ + decimal(
                length as int,
            ) + ">"@,
            TypeModel::Opaque(name) => name,
        }
    }
}

impl Type {
    #[verifier::loop_isolation(false)]
    fn push_text(&self, out: &mut String)
        ensures
            final(out)@ == old(out)@ + self@.text(),
        decreases self,
    {
        match self {
            Type::Void => out.append("void"),
            Type::UserData => out.append("userdata"),
            Type::Primitive(p) => out.append(p.name()),
            Type::Vector(v) => v.push_text(out),
            Type::Matrix(m) => m.push_text(out),
            Type::Struct(s) => {
                let ghost fields = self@->Struct_fields;
                out.append("Struct<");
                let mut i: usize = 0;
                while i < s.fields.len()
                    invariant
                        i <= s.fields.len(),
                        fields.len() == s.fields.len(),
                        out@ == old(out)@ + "Struct<"@ + fields_text(fields, i as int),
                    decreases s.fields.len() - i,
                {
                    assert(decreases_to!(s.fields => s.fields[i as int]));
                    assert(fields[i as int] == s.fields[i as int]@);
                    s.fields[i].push_text(out);
                    out.append(",");
                    i += 1;
                    assert(out@ =~= old(out)@ + "Struct<"@ + fields_text(fields, i as int));
                }
                out.append(">");
                assert(out@ =~= old(out)@ + self@.text());
            },
            Type::Array(a) => {
                out.append("Arr<");
                a.element.push_text(out);
                out.append("; ");
                push_unsigned(out, a.length as u64);
                out.append(">");
                assert(out@ =~= old(out)@ + self@.text());
            },
            Type::Opaque(name) => out.append(name.as_str()),
        }
    }

    /// The text of the type.
    pub fn to_string(&self) -> (s: String)
        ensures
            s@ == self@.text(),
    {
        let mut s = String::new();
        self.push_text(&mut s);
        assert(s@ =~= self@.text());
        s
    }
}

impl StructType {
    pub fn to_string(&self) -> (s: String)
        ensures
            s@ == Type::Struct(*self)@.text(),
    {
        let mut s = String::from_str("Struct<");
        let ghost fields = Type::Struct(*self)@->Struct_fields;
        let mut i: usize = 0;
        while i < self.fields.len()
            invariant
                i <= self.fields.len(),
                fields == Type::Struct(*self)@->Struct_fields,
                fields.len() == self.fields.len(),
                s@ == "Struct<"@ + fields_text(fields, i as int),
            decreases self.fields.len() - i,
        {
            assert(fields[i as int] == self.fields[i as int]@);
            let field = self.fields[i].to_string();
            s.append(field.as_str());
            s.append(",");
            i += 1;
            assert(s@ =~= "Struct<"@ + fields_text(fields, i as int));
        }
        s.append(">");
        s
    }
}

impl ArrayType {
    pub fn to_string(&self) -> (s: String)
        ensures
            s@ == Type::Array(*self)@.text(),
    {
        let mut s = String::from_str("Arr<");
        let element = self.element.to_string();
        s.append(element.as_str());
        s.append("; ");
        push_unsigned(&mut s, self.length as u64);
        s.append(">");
        assert(s@ =~= Type::Array(*self)@.text());
        s
    }
}

} // verus!
