use crate::binding::{
    binding_type, getter_text, setter_text, type_text, FieldDescriptor, TypeDescriptor, TypeRef,
};
use crate::layout::{
    offset_at, resolve_layout, shapes_valid, total_at, FieldShape, LayoutError, LayoutInfo,
};
use vstd::utf8::is_ascii_chars;
use crate::codec::width_of;
use crate::layout::max_align;
use crate::naming::{all_distinct, camel_of, first_collision, kebab_of, to_camel, to_kebab, views};
use crate::text::{decimal, push_decimal};
use vstd::prelude::*;

verus! {

/// Why no binding could be generated for a type.
#[derive(Clone, Copy, Debug, PartialEq, Eq)]
pub enum GenError {
    Layout(LayoutError),
    /// The names at these two positions are equal once re-cased.
    NameCollision(usize, usize),
    /// The enum has more variants than a four-byte discriminant can tell apart.
    TooManyVariants,
    /// Only structs with named fields and enums get a class of their own.
    Unsupported,
    /// The name at this position holds a character outside ASCII.
    NonAsciiName(usize),
}

/// The largest number of variants that a four-byte discriminant can encode.
pub const MAX_VARIANTS: u64 = 4294967296;

pub open spec fn shapes_of(fields: Seq<FieldDescriptor>) -> Seq<FieldShape> {
    fields.map_values(|f: FieldDescriptor| f.shape)
}

/// The layout of these fields fits in memory.
pub open spec fn layout_fits(fields: Seq<FieldDescriptor>) -> bool {
    shapes_valid(shapes_of(fields)) && total_at(shapes_of(fields)) <= usize::MAX
}

/// Position `k` holds the first name that is not all ASCII.
pub open spec fn first_non_ascii(names: Seq<Seq<char>>, k: int) -> bool {
    &&& 0 <= k < names.len()
    &&& !is_ascii_chars(names[k])
    &&& forall|j: int| 0 <= j < k ==> is_ascii_chars(#[trigger] names[j])
}

pub open spec fn all_ascii(names: Seq<Seq<char>>) -> bool {
    forall|j: int| 0 <= j < names.len() ==> is_ascii_chars(#[trigger] names[j])
}

/// `(i, j)` is the first pair of positions, in order, holding equal names.
pub open spec fn first_equal_pair(names: Seq<Seq<char>>, i: int, j: int) -> bool {
    &&& 0 <= i < j < names.len()
    &&& names[i] == names[j]
    &&& forall|a: int, b: int|
        0 <= a < b < names.len() && (a < i || (a == i && b < j)) ==> #[trigger] names[a]
            != #[trigger] names[b]
}

pub open spec fn field_names(fields: Seq<FieldDescriptor>) -> Seq<Seq<char>> {
    fields.map_values(|f: FieldDescriptor| f.name@)
}

/// A struct with these fields gets a class.
pub open spec fn struct_ok(fields: Seq<FieldDescriptor>) -> bool {
    layout_fits(fields) && all_ascii(field_names(fields)) && all_distinct(camel_names(fields))
}

/// The error reported for a struct with these fields, checked in this order:
/// the layout, then ASCII names, then re-cased names that collide.
pub open spec fn struct_error(fields: Seq<FieldDescriptor>, e: GenError) -> bool {
    match e {
        GenError::Layout(_) => !layout_fits(fields),
        GenError::NonAsciiName(k) => layout_fits(fields) && first_non_ascii(
            field_names(fields),
            k as int,
        ),
        GenError::NameCollision(i, j) => layout_fits(fields) && all_ascii(field_names(fields))
            && first_equal_pair(camel_names(fields), i as int, j as int),
        _ => false,
    }
}

/// An enum with these variants gets a class.
pub open spec fn enum_ok(variants: Seq<String>) -> bool {
    variants.len() <= MAX_VARIANTS && all_ascii(views(variants)) && all_distinct(
        kebab_names(variants),
    )
}

/// The error reported for an enum with these variants, checked in this
/// order: the variant count, then ASCII names, then re-cased names that
/// collide.
pub open spec fn enum_error(variants: Seq<String>, e: GenError) -> bool {
    match e {
        GenError::TooManyVariants => variants.len() > MAX_VARIANTS,
        GenError::NonAsciiName(k) => variants.len() <= MAX_VARIANTS && first_non_ascii(
            views(variants),
            k as int,
        ),
        GenError::NameCollision(i, j) => variants.len() <= MAX_VARIANTS && all_ascii(
            views(variants),
        ) && first_equal_pair(kebab_names(variants), i as int, j as int),
        _ => false,
    }
}

pub open spec fn camel_names(fields: Seq<FieldDescriptor>) -> Seq<Seq<char>> {
    fields.map_values(|f: FieldDescriptor| camel_of(f.name@))
}

pub open spec fn kebab_names(variants: Seq<String>) -> Seq<Seq<char>> {
    variants.map_values(|v: String| kebab_of(v@))
}

pub open spec fn class_header(name: Seq<char>, size: nat) -> Seq<char> {
    "export class "@ + name + " {\n  addr: number;\n\n  constructor(addr?: number) {\n    this.addr = addr ?? binding.alloc("@
        + decimal(size) + ");\n  }\n\n  static get(addr: number): "@ + name
        + " {\n    return new "@ + name + "(addr);\n  }\n\n  static set(addr: number, value: "@
        + name + "): void {\n    copy(value.addr, addr, "@ + decimal(size) + ");\n  }\n"@
}

/// The accessor pair of one field.
pub open spec fn property_text(js_name: Seq<char>, t: TypeRef, off: nat) -> Seq<char> {
    "\n  get "@ + js_name + "(): "@ + type_text(t) + " {\n    return "@ + getter_text(t, off)
        + ";\n  }\n\n  set "@ + js_name + "(value: "@ + type_text(t) + "): void {\n    "@
        + setter_text(t, off, "value"@) + ";\n  }\n"@
}

/// The accessor pairs of the first `i` fields, in declaration order.
pub open spec fn properties_text(fields: Seq<FieldDescriptor>, i: int) -> Seq<char>
    decreases i,
{
    if i <= 0 {
        Seq::empty()
    } else {
        properties_text(fields, i - 1) + property_text(
            camel_of(fields[i - 1].name@),
            binding_type(fields[i - 1]),
            offset_at(shapes_of(fields), i - 1) as nat,
        )
    }
}

/// The class generated for a struct.
pub open spec fn struct_text(name: Seq<char>, fields: Seq<FieldDescriptor>) -> Seq<char> {
    class_header(name, total_at(shapes_of(fields)) as nat) + properties_text(fields, fields.len() as int)
        + "}\n"@
}

/// The heap accessor suffix for a discriminant that tells `n` variants apart.
pub open spec fn width_text(n: nat) -> Seq<char> {
    if n <= 256 {
        "U8"@
    } else if n <= 65536 {
        "U16"@
    } else {
        "U32"@
    }
}

/// The first `i` variant literals, quoted and joined by ` | `.
pub open spec fn union_text(ks: Seq<Seq<char>>, i: int) -> Seq<char>
    decreases i,
{
    if i <= 0 {
        Seq::empty()
    } else if i == 1 {
        "'"@ + ks[0] + "'"@
    } else {
        union_text(ks, i - 1) + " | '"@ + ks[i - 1] + "'"@
    }
}

/// The decoding cases of the first `i` variants.
pub open spec fn get_cases(ks: Seq<Seq<char>>, i: int) -> Seq<char>
    decreases i,
{
    if i <= 0 {
        Seq::empty()
    } else {
        get_cases(ks, i - 1) + "\n      case "@ + decimal((i - 1) as nat) + ":\n        return '"@
            + ks[i - 1] + "';"@
    }
}

/// The encoding cases of the first `i` variants.
pub open spec fn set_cases(ks: Seq<Seq<char>>, i: int) -> Seq<char>
    decreases i,
{
    if i <= 0 {
        Seq::empty()
    } else {
        set_cases(ks, i - 1) + "\n      case '"@ + ks[i - 1] + "':\n        write(addr, "@ + decimal(
            (i - 1) as nat,
        ) + ");\n        break;"@
    }
}

/// The variant union and class generated for an enum whose re-cased variant
/// literals are `ks`.
pub open spec fn enum_text(name: Seq<char>, ks: Seq<Seq<char>>) -> Seq<char> {
    let w = width_text(ks.len());
    let n = ks.len() as int;
    "type "@ + name + "Variants = "@ + union_text(ks, n) + ";\n\nexport class "@ + name
        + " {\n  static get(addr: number): "@ + name + "Variants {\n    switch (read"@ + w
        + "(addr)) {"@ + get_cases(ks, n) + "\n      default:\n        throw new Error(`Unknown "@
        + name + " value: ${read"@ + w + "(addr)}`);\n    }\n  }\n\n  static set(addr: number, value: "@
        + name + "Variants): void {\n    let write = write"@ + w + ";\n    switch (value) {"@
        + set_cases(ks, n) + "\n      default:\n        throw new Error(`Unknown "@ + name
        + " value: ${value}`);\n    }\n  }\n}\n"@
}

fn push_class_header(out: &mut String, name: &str, size: usize)
    ensures
        final(out)@ == old(out)@ + class_header(name@, size as nat),
{
    out.append("export class ");
    out.append(name);
    out.append(
        " {\n  addr: number;\n\n  constructor(addr?: number) {\n    this.addr = addr ?? binding.alloc(",
    );
    push_decimal(out, size);
    out.append(");\n  }\n\n  static get(addr: number): ");
    out.append(name);
    out.append(" {\n    return new ");
    out.append(name);
    out.append("(addr);\n  }\n\n  static set(addr: number, value: ");
    out.append(name);
    out.append("): void {\n    copy(value.addr, addr, ");
    push_decimal(out, size);
    out.append(");\n  }\n");
    proof {
        assert(final(out)@ =~= old(out)@ + class_header(name@, size as nat));
    }
}

fn push_property(out: &mut String, js_name: &str, t: &TypeRef, off: usize)
    ensures
        final(out)@ == old(out)@ + property_text(js_name@, *t, off as nat),
{
    out.append("\n  get ");
    out.append(js_name);
    out.append("(): ");
    t.push_type_name(out);
    out.append(" {\n    return ");
    t.push_getter(out, off);
    out.append(";\n  }\n\n  set ");
    out.append(js_name);
    out.append("(value: ");
    t.push_type_name(out);
    out.append("): void {\n    ");
    t.push_setter(out, off, "value");
    out.append(";\n  }\n");
    proof {
        assert(final(out)@ =~= old(out)@ + property_text(js_name@, *t, off as nat));
    }
}

fn binding_of(f: &FieldDescriptor) -> (r: &TypeRef)
    ensures
        *r == binding_type(*f),
{
    match &f.override_type {
        Some(t) => t,
        None => &f.logical_type,
    }
}

fn field_shapes(fields: &Vec<FieldDescriptor>) -> (r: Vec<FieldShape>)
    ensures
        r@ == shapes_of(fields@),
{
    let n = fields.len();
    let mut shapes: Vec<FieldShape> = Vec::new();
    let mut i: usize = 0;
    while i < n
        invariant
            n == fields@.len(),
            i <= n,
            shapes@.len() == i,
            forall|j: int| 0 <= j < i ==> #[trigger] shapes@[j] == fields@[j].shape,
        decreases n - i,
    {
        shapes.push(fields[i].shape);
        i = i + 1;
    }
    proof {
        assert(shapes@ =~= shapes_of(fields@));
    }
    shapes
}

/// Size and alignment of a type when it is a field of another type: a
/// struct's from its layout, an enum's from its discriminant width, and a
/// single-field wrapper's those of the wrapped type, given as `wrapped`.
pub fn shape_of(desc: &TypeDescriptor, wrapped: Option<FieldShape>) -> (r: Result<
    FieldShape,
    GenError,
>)
    ensures
        match *desc {
            TypeDescriptor::Struct { fields, .. } => match r {
                Ok(s) => {
                    &&& layout_fits(fields@)
                    &&& s.size == total_at(shapes_of(fields@))
                    &&& s.align == max_align(shapes_of(fields@), fields@.len() as int)
                },
                Err(e) => !layout_fits(fields@) && e is Layout,
            },
            TypeDescriptor::Enum { variants, .. } => match r {
                Ok(s) => variants@.len() <= MAX_VARIANTS && s.size == width_of(variants@.len())
                    && s.align == s.size,
                Err(e) => variants@.len() > MAX_VARIANTS && e == GenError::TooManyVariants,
            },
            TypeDescriptor::Newtype { .. } => match wrapped {
                Some(w) => r == Ok::<FieldShape, GenError>(w),
                None => r == Err::<FieldShape, GenError>(GenError::Unsupported),
            },
        },
{
    match desc {
        TypeDescriptor::Struct { fields, .. } => {
            let shapes = field_shapes(fields);
            match resolve_layout(&shapes) {
                Ok(info) => Ok(FieldShape { size: info.total_size, align: info.align }),
                Err(e) => Err(GenError::Layout(e)),
            }
        },
        TypeDescriptor::Enum { variants, .. } => {
            let n = variants.len();
            if n as u64 > MAX_VARIANTS {
                Err(GenError::TooManyVariants)
            } else {
                let w: usize = if n <= 256 {
                    1
                } else if n <= 65536 {
                    2
                } else {
                    4
                };
                Ok(FieldShape { size: w, align: w })
            }
        },
        TypeDescriptor::Newtype { .. } => match wrapped {
            Some(w) => Ok(w),
            None => Err(GenError::Unsupported),
        },
    }
}

/// Generates the class for a struct named `name` with these fields.
pub fn emit_struct(name: &String, fields: &Vec<FieldDescriptor>) -> (r: Result<String, GenError>)
    ensures
        match r {
            Ok(t) => struct_ok(fields@) && t@ == struct_text(name@, fields@),
            Err(e) => !struct_ok(fields@) && struct_error(fields@, e),
        },
{
    let n = fields.len();
    let shapes = field_shapes(fields);
    let info: LayoutInfo = match resolve_layout(&shapes) {
        Ok(info) => info,
        Err(e) => {
            return Err(GenError::Layout(e));
        },
    };
    let mut names: Vec<String> = Vec::new();
    let mut i: usize = 0;
    while i < n
        invariant
            n == fields@.len(),
            i <= n,
            names@.len() == i,
            forall|j: int| 0 <= j < i ==> #[trigger] names@[j]@ == camel_of(fields@[j].name@),
            forall|j: int| 0 <= j < i ==> is_ascii_chars(#[trigger] fields@[j].name@),
            layout_fits(fields@),
        decreases n - i,
    {
        if !fields[i].name.as_str().is_ascii() {
            proof {
                assert(field_names(fields@)[i as int] == fields@[i as int].name@);
                assert forall|j: int| 0 <= j < i implies is_ascii_chars(
                    #[trigger] field_names(fields@)[j],
                ) by {
                    assert(field_names(fields@)[j] == fields@[j].name@);
                }
                assert(!all_ascii(field_names(fields@)));
                assert(layout_fits(fields@));
                assert(first_non_ascii(field_names(fields@), i as int));
            }
            return Err(GenError::NonAsciiName(i));
        }
        names.push(to_camel(fields[i].name.as_str()));
        i = i + 1;
    }
    proof {
        assert(views(names@) =~= camel_names(fields@));
        assert forall|j: int| 0 <= j < n implies is_ascii_chars(#[trigger] field_names(fields@)[j]) by {
            assert(field_names(fields@)[j] == fields@[j].name@);
        }
    }
    match first_collision(&names) {
        Some((a, b)) => {
            proof {
                assert(views(names@)[a as int] == views(names@)[b as int]);
                assert(!all_distinct(camel_names(fields@)));
                assert(first_equal_pair(camel_names(fields@), a as int, b as int)) by {
                    assert forall|x: int, y: int|
                        0 <= x < y < n && (x < a || (x == a && y < b)) implies #[trigger] camel_names(
                        fields@,
                    )[x] != #[trigger] camel_names(fields@)[y] by {
                        assert(names@[x]@ != names@[y]@);
                    }
                }
            }
            return Err(GenError::NameCollision(a, b));
        },
        None => {},
    }
    let mut out = String::new();
    push_class_header(&mut out, name.as_str(), info.total_size);
    let ghost header = out@;
    let mut i: usize = 0;
    while i < n
        invariant
            n == fields@.len(),
            i <= n,
            names@.len() == n,
            forall|j: int| 0 <= j < n ==> #[trigger] names@[j]@ == camel_of(fields@[j].name@),
            info.field_offsets@.len() == n,
            forall|j: int|
                0 <= j < n ==> #[trigger] info.field_offsets@[j] == offset_at(shapes_of(fields@), j),
            out@ == header + properties_text(fields@, i as int),
        decreases n - i,
    {
        push_property(&mut out, names[i].as_str(), binding_of(&fields[i]), info.field_offsets[i]);
        proof {
            assert(out@ =~= header + properties_text(fields@, i + 1));
        }
        i = i + 1;
    }
    out.append("}\n");
    proof {
        assert(out@ =~= struct_text(name@, fields@));
    }
    Ok(out)
}

fn push_union(out: &mut String, ks: &Vec<String>)
    ensures
        final(out)@ == old(out)@ + union_text(views(ks@), ks@.len() as int),
{
    let ghost vs = views(ks@);
    let n = ks.len();
    let mut i: usize = 0;
    while i < n
        invariant
            n == ks@.len(),
            vs == views(ks@),
            i <= n,
            out@ == old(out)@ + union_text(vs, i as int),
        decreases n - i,
    {
        if i == 0 {
            out.append("'");
        } else {
            out.append(" | '");
        }
        out.append(ks[i].as_str());
        out.append("'");
        proof {
            assert(out@ =~= old(out)@ + union_text(vs, i + 1));
        }
        i = i + 1;
    }
}

fn push_get_cases(out: &mut String, ks: &Vec<String>)
    ensures
        final(out)@ == old(out)@ + get_cases(views(ks@), ks@.len() as int),
{
    let ghost vs = views(ks@);
    let n = ks.len();
    let mut i: usize = 0;
    while i < n
        invariant
            n == ks@.len(),
            vs == views(ks@),
            i <= n,
            out@ == old(out)@ + get_cases(vs, i as int),
        decreases n - i,
    {
        out.append("\n      case ");
        push_decimal(out, i);
        out.append(":\n        return '");
        out.append(ks[i].as_str());
        out.append("';");
        proof {
            assert(out@ =~= old(out)@ + get_cases(vs, i + 1));
        }
        i = i + 1;
    }
}

fn push_set_cases(out: &mut String, ks: &Vec<String>)
    ensures
        final(out)@ == old(out)@ + set_cases(views(ks@), ks@.len() as int),
{
    let ghost vs = views(ks@);
    let n = ks.len();
    let mut i: usize = 0;
    while i < n
        invariant
            n == ks@.len(),
            vs == views(ks@),
            i <= n,
            out@ == old(out)@ + set_cases(vs, i as int),
        decreases n - i,
    {
        out.append("\n      case '");
        out.append(ks[i].as_str());
        out.append("':\n        write(addr, ");
        push_decimal(out, i);
        out.append(");\n        break;");
        proof {
            assert(out@ =~= old(out)@ + set_cases(vs, i + 1));
        }
        i = i + 1;
    }
}

fn width_str(n: usize) -> (r: &'static str)
    ensures
        r@ == width_text(n as nat),
{
    if n <= 256 {
        "U8"
    } else if n <= 65536 {
        "U16"
    } else {
        "U32"
    }
}

/// The re-cased literals of an enum's variants, in declaration order, after
/// the checks that an enum must pass to get a binding.
pub fn variant_literals(variants: &Vec<String>) -> (r: Result<Vec<String>, GenError>)
    ensures
        match r {
            Ok(ks) => enum_ok(variants@) && views(ks@) == kebab_names(variants@),
            Err(e) => !enum_ok(variants@) && enum_error(variants@, e),
        },
{
    let n = variants.len();
    if n as u64 > MAX_VARIANTS {
        return Err(GenError::TooManyVariants);
    }
    let mut ks: Vec<String> = Vec::new();
    let mut i: usize = 0;
    while i < n
        invariant
            n == variants@.len(),
            i <= n,
            ks@.len() == i,
            forall|j: int| 0 <= j < i ==> #[trigger] ks@[j]@ == kebab_of(variants@[j]@),
            forall|j: int| 0 <= j < i ==> is_ascii_chars(#[trigger] variants@[j]@),
            n <= MAX_VARIANTS,
        decreases n - i,
    {
        if !variants[i].as_str().is_ascii() {
            proof {
                assert(views(variants@)[i as int] == variants@[i as int]@);
                assert forall|j: int| 0 <= j < i implies is_ascii_chars(
                    #[trigger] views(variants@)[j],
                ) by {
                    assert(views(variants@)[j] == variants@[j]@);
                }
                assert(!all_ascii(views(variants@)));
                assert(variants@.len() <= MAX_VARIANTS);
                assert(first_non_ascii(views(variants@), i as int));
            }
            return Err(GenError::NonAsciiName(i));
        }
        ks.push(to_kebab(variants[i].as_str()));
        i = i + 1;
    }
    proof {
        assert(views(ks@) =~= kebab_names(variants@));
        assert forall|j: int| 0 <= j < n implies is_ascii_chars(#[trigger] views(variants@)[j]) by {
            assert(views(variants@)[j] == variants@[j]@);
        }
    }
    match first_collision(&ks) {
        Some((a, b)) => {
            proof {
                assert(views(ks@)[a as int] == views(ks@)[b as int]);
                assert(!all_distinct(kebab_names(variants@)));
                assert(first_equal_pair(kebab_names(variants@), a as int, b as int)) by {
                    assert forall|x: int, y: int|
                        0 <= x < y < n && (x < a || (x == a && y < b)) implies #[trigger] kebab_names(
                        variants@,
                    )[x] != #[trigger] kebab_names(variants@)[y] by {
                        assert(ks@[x]@ != ks@[y]@);
                    }
                }
            }
            Err(GenError::NameCollision(a, b))
        },
        None => Ok(ks),
    }
}

/// Generates the variant union and class for an enum named `name` whose
/// variants, in declaration order, are `variants`.
pub fn emit_enum(name: &String, variants: &Vec<String>) -> (r: Result<String, GenError>)
    ensures
        match r {
            Ok(t) => enum_ok(variants@) && t@ == enum_text(name@, kebab_names(variants@)),
            Err(e) => !enum_ok(variants@) && enum_error(variants@, e),
        },
{
    let ks = match variant_literals(variants) {
        Ok(ks) => ks,
        Err(e) => {
            return Err(e);
        },
    };
    let n = ks.len();
    let w = width_str(n);
    let nm = name.as_str();
    let mut out = String::new();
    out.append("type ");
    out.append(nm);
    out.append("Variants = ");
    push_union(&mut out, &ks);
    out.append(";\n\nexport class ");
    out.append(nm);
    out.append(" {\n  static get(addr: number): ");
    out.append(nm);
    out.append("Variants {\n    switch (read");
    out.append(w);
    out.append("(addr)) {");
    push_get_cases(&mut out, &ks);
    out.append("\n      default:\n        throw new Error(`Unknown ");
    out.append(nm);
    out.append(" value: ${read");
    out.append(w);
    out.append("(addr)}`);\n    }\n  }\n\n  static set(addr: number, value: ");
    out.append(nm);
    out.append("Variants): void {\n    let write = write");
    out.append(w);
    out.append(";\n    switch (value) {");
    push_set_cases(&mut out, &ks);
    out.append("\n      default:\n        throw new Error(`Unknown ");
    out.append(nm);
    out.append(" value: ${value}`);\n    }\n  }\n}\n");
    proof {
        assert(out@ =~= enum_text(name@, kebab_names(variants@)));
    }
    Ok(out)
}

/// The text generated for a type descriptor, or why there is none.
pub open spec fn to_js_spec(desc: TypeDescriptor) -> Option<Seq<char>> {
    match desc {
        TypeDescriptor::Struct { name, fields } => {
            if struct_ok(fields@) {
                Some(struct_text(name@, fields@))
            } else {
                None
            }
        },
        TypeDescriptor::Enum { name, variants } => {
            if enum_ok(variants@) {
                Some(enum_text(name@, kebab_names(variants@)))
            } else {
                None
            }
        },
        TypeDescriptor::Newtype { .. } => None,
    }
}

/// The error reported for a type descriptor that gets no definitions.
pub open spec fn to_js_error(desc: TypeDescriptor, e: GenError) -> bool {
    match desc {
        TypeDescriptor::Struct { fields, .. } => struct_error(fields@, e),
        TypeDescriptor::Enum { variants, .. } => enum_error(variants@, e),
        TypeDescriptor::Newtype { .. } => e == GenError::Unsupported,
    }
}

/// Generates the host-language definitions for one type: a class with a
/// property per field for a struct, a variant union and a class for an enum.
/// A single-field wrapper gets no definitions of its own.
pub fn derive_to_js(desc: &TypeDescriptor) -> (r: Result<String, GenError>)
    ensures
        match to_js_spec(*desc) {
            Some(t) => r is Ok && r->Ok_0@ == t,
            None => r is Err && to_js_error(*desc, r->Err_0),
        },
{
    match desc {
        TypeDescriptor::Struct { name, fields } => emit_struct(name, fields),
        TypeDescriptor::Enum { name, variants } => emit_enum(name, variants),
        TypeDescriptor::Newtype { .. } => Err(GenError::Unsupported),
    }
}

/// Naming: re-casing is a function of the name alone, and whenever a struct
/// or an enum gets a binding, no two of its fields or variants share a
/// re-cased name.
pub proof fn lemma_names_injective(desc: TypeDescriptor, a: Seq<char>, b: Seq<char>)
    requires
        to_js_spec(desc) is Some,
    ensures
        a == b ==> camel_of(a) == camel_of(b) && kebab_of(a) == kebab_of(b),
        desc matches TypeDescriptor::Struct { fields, .. } ==> all_distinct(camel_names(fields@)),
        desc matches TypeDescriptor::Enum { variants, .. } ==> all_distinct(kebab_names(variants@)),
{
}

} // verus!
