use crate::layout::FieldShape;
use crate::text::{decimal, push_decimal};
use vstd::prelude::*;

verus! {

/// A field type that knows how to read and write itself in the heap: the
/// host-language expression that reads it at an offset from `this.addr`, the
/// statement that writes it there, and the host-language type name.
#[derive(Debug)]
pub enum TypeRef {
    U8,
    U16,
    U32,
    Bool,
    /// A struct that has a generated class of its own.
    Class(String),
    /// An enum that has a generated class and variant union of its own.
    Enum(String),
    /// A single-field wrapper, bound exactly as the wrapped type.
    Newtype(Box<TypeRef>),
}

/// One named field of a struct, in declaration order.
#[derive(Debug)]
pub struct FieldDescriptor {
    pub name: String,
    pub logical_type: TypeRef,
    /// Replaces `logical_type` for binding generation only.
    pub override_type: Option<TypeRef>,
    pub shape: FieldShape,
}

/// A native type definition, as binding generation sees it.
#[derive(Debug)]
pub enum TypeDescriptor {
    Struct { name: String, fields: Vec<FieldDescriptor> },
    Enum { name: String, variants: Vec<String> },
    /// A tuple struct with exactly one field.
    Newtype { name: String, inner: TypeRef },
}

/// The type through which a field is bound.
pub open spec fn binding_type(f: FieldDescriptor) -> TypeRef {
    match f.override_type {
        Some(t) => t,
        None => f.logical_type,
    }
}

pub open spec fn at_text(off: nat) -> Seq<char> {
    "(this.addr + "@ + decimal(off) + ")"@
}

pub open spec fn write_text(width: Seq<char>, off: nat, value: Seq<char>) -> Seq<char> {
    "write"@ + width + "(this.addr + "@ + decimal(off) + ", "@ + value + ")"@
}

/// The expression that reads a value of type `t` at `this.addr + off`.
pub open spec fn getter_text(t: TypeRef, off: nat) -> Seq<char>
    decreases t,
{
    match t {
        TypeRef::U8 => "readU8"@ + at_text(off),
        TypeRef::U16 => "readU16"@ + at_text(off),
        TypeRef::U32 => "readU32"@ + at_text(off),
        TypeRef::Bool => "(readU8"@ + at_text(off) + " !== 0)"@,
        TypeRef::Class(n) => n@ + ".get"@ + at_text(off),
        TypeRef::Enum(n) => n@ + ".get"@ + at_text(off),
        TypeRef::Newtype(inner) => getter_text(*inner, off),
    }
}

/// The statement that writes `value`, of type `t`, at `this.addr + off`.
pub open spec fn setter_text(t: TypeRef, off: nat, value: Seq<char>) -> Seq<char>
    decreases t,
{
    match t {
        TypeRef::U8 => write_text("U8"@, off, value),
        TypeRef::U16 => write_text("U16"@, off, value),
        TypeRef::U32 => write_text("U32"@, off, value),
        TypeRef::Bool => write_text("U8"@, off, value + " ? 1 : 0"@),
        TypeRef::Class(n) => n@ + ".set(this.addr + "@ + decimal(off) + ", "@ + value + ")"@,
        TypeRef::Enum(n) => n@ + ".set(this.addr + "@ + decimal(off) + ", "@ + value + ")"@,
        TypeRef::Newtype(inner) => setter_text(*inner, off, value),
    }
}

/// The host-language name of type `t`.
pub open spec fn type_text(t: TypeRef) -> Seq<char>
    decreases t,
{
    match t {
        TypeRef::U8 | TypeRef::U16 | TypeRef::U32 => "number"@,
        TypeRef::Bool => "boolean"@,
        TypeRef::Class(n) => n@,
        TypeRef::Enum(n) => n@ + "Variants"@,
        TypeRef::Newtype(inner) => type_text(*inner),
    }
}

/// The binding that a type descriptor gives its type when used as a field.
pub open spec fn js_value_of(d: TypeDescriptor) -> TypeRef {
    match d {
        TypeDescriptor::Struct { name, .. } => TypeRef::Class(name),
        TypeDescriptor::Enum { name, .. } => TypeRef::Enum(name),
        TypeDescriptor::Newtype { inner, .. } => inner,
    }
}

fn push_at(out: &mut String, off: usize)
    ensures
        final(out)@ == old(out)@ + at_text(off as nat),
{
    out.append("(this.addr + ");
    push_decimal(out, off);
    out.append(")");
    proof {
        assert(final(out)@ =~= old(out)@ + at_text(off as nat));
    }
}

fn push_write(out: &mut String, width: &str, off: usize, value: &str)
    ensures
        final(out)@ == old(out)@ + write_text(width@, off as nat, value@),
{
    out.append("write");
    out.append(width);
    out.append("(this.addr + ");
    push_decimal(out, off);
    out.append(", ");
    out.append(value);
    out.append(")");
    proof {
        assert(final(out)@ =~= old(out)@ + write_text(width@, off as nat, value@));
    }
}

impl TypeRef {
    /// A copy of this type reference.
    pub fn duplicate(&self) -> (r: TypeRef)
        ensures
            r == *self,
        decreases self,
    {
        match self {
            TypeRef::U8 => TypeRef::U8,
            TypeRef::U16 => TypeRef::U16,
            TypeRef::U32 => TypeRef::U32,
            TypeRef::Bool => TypeRef::Bool,
            TypeRef::Class(n) => TypeRef::Class(n.clone()),
            TypeRef::Enum(n) => TypeRef::Enum(n.clone()),
            TypeRef::Newtype(inner) => TypeRef::Newtype(Box::new(inner.duplicate())),
        }
    }

    /// Appends the expression that reads this type at `this.addr + offset`.
    pub fn push_getter(&self, out: &mut String, offset: usize)
        ensures
            final(out)@ == old(out)@ + getter_text(*self, offset as nat),
        decreases self,
    {
        match self {
            TypeRef::U8 => {
                out.append("readU8");
                push_at(out, offset);
            },
            TypeRef::U16 => {
                out.append("readU16");
                push_at(out, offset);
            },
            TypeRef::U32 => {
                out.append("readU32");
                push_at(out, offset);
            },
            TypeRef::Bool => {
                out.append("(readU8");
                push_at(out, offset);
                out.append(" !== 0)");
            },
            TypeRef::Class(n) | TypeRef::Enum(n) => {
                out.append(n.as_str());
                out.append(".get");
                push_at(out, offset);
            },
            TypeRef::Newtype(inner) => {
                inner.push_getter(out, offset);
            },
        }
        proof {
            assert(final(out)@ =~= old(out)@ + getter_text(*self, offset as nat));
        }
    }

    /// Appends the statement that writes `value` as this type at
    /// `this.addr + offset`.
    pub fn push_setter(&self, out: &mut String, offset: usize, value: &str)
        ensures
            final(out)@ == old(out)@ + setter_text(*self, offset as nat, value@),
        decreases self,
    {
        match self {
            TypeRef::U8 => push_write(out, "U8", offset, value),
            TypeRef::U16 => push_write(out, "U16", offset, value),
            TypeRef::U32 => push_write(out, "U32", offset, value),
            TypeRef::Bool => {
                let mut v = String::from_str(value);
                v.append(" ? 1 : 0");
                push_write(out, "U8", offset, v.as_str());
            },
            TypeRef::Class(n) | TypeRef::Enum(n) => {
                out.append(n.as_str());
                out.append(".set(this.addr + ");
                push_decimal(out, offset);
                out.append(", ");
                out.append(value);
                out.append(")");
            },
            TypeRef::Newtype(inner) => {
                inner.push_setter(out, offset, value);
            },
        }
        proof {
            assert(final(out)@ =~= old(out)@ + setter_text(*self, offset as nat, value@));
        }
    }

    /// Appends the host-language type name of this type.
    pub fn push_type_name(&self, out: &mut String)
        ensures
            final(out)@ == old(out)@ + type_text(*self),
        decreases self,
    {
        match self {
            TypeRef::U8 | TypeRef::U16 | TypeRef::U32 => out.append("number"),
            TypeRef::Bool => out.append("boolean"),
            TypeRef::Class(n) => out.append(n.as_str()),
            TypeRef::Enum(n) => {
                out.append(n.as_str());
                out.append("Variants");
            },
            TypeRef::Newtype(inner) => inner.push_type_name(out),
        }
        proof {
            assert(final(out)@ =~= old(out)@ + type_text(*self));
        }
    }

    /// The expression that reads this type at `this.addr + offset`.
    pub fn js_getter(&self, offset: usize) -> (r: String)
        ensures
            r@ == getter_text(*self, offset as nat),
    {
        let mut out = String::new();
        self.push_getter(&mut out, offset);
        proof {
            assert(out@ =~= getter_text(*self, offset as nat));
        }
        out
    }

    /// The statement that writes `value` as this type at `this.addr + offset`.
    pub fn js_setter(&self, offset: usize, value: &str) -> (r: String)
        ensures
            r@ == setter_text(*self, offset as nat, value@),
    {
        let mut out = String::new();
        self.push_setter(&mut out, offset, value);
        proof {
            assert(out@ =~= setter_text(*self, offset as nat, value@));
        }
        out
    }

    /// The host-language type name of this type.
    pub fn ty(&self) -> (r: String)
        ensures
            r@ == type_text(*self),
    {
        let mut out = String::new();
        self.push_type_name(&mut out);
        proof {
            assert(out@ =~= type_text(*self));
        }
        out
    }
}

/// The binding that a type gets for use as a field of another type: a struct
/// reads and writes through its own class, an enum through its own class and
/// variant union, and a single-field wrapper exactly as the wrapped type.
pub fn derive_js_value(desc: &TypeDescriptor) -> (r: TypeRef)
    ensures
        r == js_value_of(*desc),
{
    match desc {
        TypeDescriptor::Struct { name, .. } => TypeRef::Class(name.clone()),
        TypeDescriptor::Enum { name, .. } => TypeRef::Enum(name.clone()),
        TypeDescriptor::Newtype { inner, .. } => inner.duplicate(),
    }
}

/// Newtype transparency: a single-field wrapper's binding reads, writes and
/// names its value exactly as the wrapped type's own binding does, at every
/// offset and for every value expression.
pub proof fn lemma_newtype_transparent(name: String, inner: TypeRef, off: nat, value: Seq<char>)
    ensures
        ({
            let t = js_value_of(TypeDescriptor::Newtype { name, inner });
            &&& getter_text(t, off) == getter_text(inner, off)
            &&& setter_text(t, off, value) == setter_text(inner, off, value)
            &&& type_text(t) == type_text(inner)
        }),
{
}

/// The same transparency for a wrapper used directly as a field type.
pub proof fn lemma_newtype_ref_transparent(inner: TypeRef, off: nat, value: Seq<char>)
    ensures
        getter_text(TypeRef::Newtype(Box::new(inner)), off) == getter_text(inner, off),
        setter_text(TypeRef::Newtype(Box::new(inner)), off, value) == setter_text(inner, off, value),
        type_text(TypeRef::Newtype(Box::new(inner))) == type_text(inner),
{
}

} // verus!
