use heap_bindings::binding::{derive_js_value, FieldDescriptor, TypeDescriptor, TypeRef};
use heap_bindings::codec::{CodecError, EnumCodec};
use heap_bindings::emit::{derive_to_js, shape_of, GenError};
use heap_bindings::layout::{resolve_layout, FieldShape, LayoutError};
use heap_bindings::ledger::Ledger;
use heap_bindings::naming::first_collision;
use heap_bindings::slab::{derive_slab_allocated, SlabError};
use heap_bindings::text::push_decimal;

fn field(name: &str, ty: TypeRef, size: usize, align: usize) -> FieldDescriptor {
    FieldDescriptor {
        name: name.to_string(),
        logical_type: ty,
        override_type: None,
        shape: FieldShape { size, align },
    }
}

fn point() -> TypeDescriptor {
    TypeDescriptor::Struct {
        name: "Point".to_string(),
        fields: vec![field("x", TypeRef::U32, 4, 4), field("y", TypeRef::U32, 4, 4)],
    }
}

fn color() -> TypeDescriptor {
    TypeDescriptor::Enum {
        name: "Color".to_string(),
        variants: vec!["Red".to_string(), "Green".to_string(), "Blue".to_string()],
    }
}

fn header(name: &str, size: usize) -> String {
    format!(
        "export class {name} {{\n  addr: number;\n\n  constructor(addr?: number) {{\n    this.addr = addr ?? binding.alloc({size});\n  }}\n\n  static get(addr: number): {name} {{\n    return new {name}(addr);\n  }}\n\n  static set(addr: number, value: {name}): void {{\n    copy(value.addr, addr, {size});\n  }}\n"
    )
}

fn property(name: &str, ty: &str, getter: &str, setter: &str) -> String {
    format!(
        "\n  get {name}(): {ty} {{\n    return {getter};\n  }}\n\n  set {name}(value: {ty}): void {{\n    {setter};\n  }}\n"
    )
}

#[test]
fn point_offsets_and_size() {
    let shapes = vec![FieldShape { size: 4, align: 4 }, FieldShape { size: 4, align: 4 }];
    let info = resolve_layout(&shapes).unwrap();
    assert_eq!(info.field_offsets, vec![0, 4]);
    assert_eq!(info.total_size, 8);
    assert_eq!(info.align, 4);
}

#[test]
fn point_class_text() {
    let text = derive_to_js(&point()).unwrap();
    let expected = header("Point", 8)
        + &property("x", "number", "readU32(this.addr + 0)", "writeU32(this.addr + 0, value)")
        + &property("y", "number", "readU32(this.addr + 4)", "writeU32(this.addr + 4, value)")
        + "}\n";
    assert_eq!(text, expected);
}

#[test]
fn layout_inserts_padding() {
    let shapes = vec![
        FieldShape { size: 1, align: 1 },
        FieldShape { size: 4, align: 4 },
        FieldShape { size: 2, align: 2 },
    ];
    let info = resolve_layout(&shapes).unwrap();
    assert_eq!(info.field_offsets, vec![0, 4, 8]);
    assert_eq!(info.total_size, 12);
}

#[test]
fn layout_of_no_fields() {
    let info = resolve_layout(&Vec::new()).unwrap();
    assert_eq!(info.field_offsets, Vec::<usize>::new());
    assert_eq!(info.total_size, 0);
    assert_eq!(info.align, 1);
}

#[test]
fn layout_rejects_zero_alignment() {
    let shapes = vec![FieldShape { size: 1, align: 1 }, FieldShape { size: 4, align: 0 }];
    assert_eq!(resolve_layout(&shapes).unwrap_err(), LayoutError::ZeroAlignment(1));
}

#[test]
fn layout_rejects_overflow() {
    let shapes = vec![FieldShape { size: usize::MAX, align: 1 }, FieldShape { size: 1, align: 1 }];
    assert_eq!(resolve_layout(&shapes).unwrap_err(), LayoutError::Overflow);
}

#[test]
fn struct_fields_are_camel_cased() {
    let desc = TypeDescriptor::Struct {
        name: "Player".to_string(),
        fields: vec![field("hit_points", TypeRef::U16, 2, 2), field("is_alive", TypeRef::Bool, 1, 1)],
    };
    let text = derive_to_js(&desc).unwrap();
    let expected = header("Player", 4)
        + &property("hitPoints", "number", "readU16(this.addr + 0)", "writeU16(this.addr + 0, value)")
        + &property(
            "isAlive",
            "boolean",
            "(readU8(this.addr + 2) !== 0)",
            "writeU8(this.addr + 2, value ? 1 : 0)",
        )
        + "}\n";
    assert_eq!(text, expected);
}

#[test]
fn nested_and_override_fields() {
    let mut pos = field("position", TypeRef::Class("Point".to_string()), 8, 4);
    pos.override_type = Some(TypeRef::Class("Vec2".to_string()));
    let desc = TypeDescriptor::Struct {
        name: "Body".to_string(),
        fields: vec![field("tint", TypeRef::Enum("Color".to_string()), 1, 1), pos],
    };
    let text = derive_to_js(&desc).unwrap();
    let expected = header("Body", 12)
        + &property(
            "tint",
            "ColorVariants",
            "Color.get(this.addr + 0)",
            "Color.set(this.addr + 0, value)",
        )
        + &property(
            "position",
            "Vec2",
            "Vec2.get(this.addr + 4)",
            "Vec2.set(this.addr + 4, value)",
        )
        + "}\n";
    assert_eq!(text, expected);
}

#[test]
fn colliding_field_names_are_rejected() {
    let desc = TypeDescriptor::Struct {
        name: "Dup".to_string(),
        fields: vec![
            field("a", TypeRef::U8, 1, 1),
            field("foo_bar", TypeRef::U8, 1, 1),
            field("fooBar", TypeRef::U8, 1, 1),
        ],
    };
    assert_eq!(derive_to_js(&desc).unwrap_err(), GenError::NameCollision(1, 2));
}

#[test]
fn struct_layout_error_is_reported() {
    let desc = TypeDescriptor::Struct {
        name: "Bad".to_string(),
        fields: vec![field("a", TypeRef::U8, 1, 0)],
    };
    assert_eq!(derive_to_js(&desc).unwrap_err(), GenError::Layout(LayoutError::ZeroAlignment(0)));
}

#[test]
fn newtype_has_no_class() {
    let desc = TypeDescriptor::Newtype { name: "Id".to_string(), inner: TypeRef::U32 };
    assert_eq!(derive_to_js(&desc).unwrap_err(), GenError::Unsupported);
}

#[test]
fn color_enum_text() {
    let text = derive_to_js(&color()).unwrap();
    let expected = "type ColorVariants = 'red' | 'green' | 'blue';\n\nexport class Color {\n  static get(addr: number): ColorVariants {\n    switch (readU8(addr)) {\n      case 0:\n        return 'red';\n      case 1:\n        return 'green';\n      case 2:\n        return 'blue';\n      default:\n        throw new Error(`Unknown Color value: ${readU8(addr)}`);\n    }\n  }\n\n  static set(addr: number, value: ColorVariants): void {\n    let write = writeU8;\n    switch (value) {\n      case 'red':\n        write(addr, 0);\n        break;\n      case 'green':\n        write(addr, 1);\n        break;\n      case 'blue':\n        write(addr, 2);\n        break;\n      default:\n        throw new Error(`Unknown Color value: ${value}`);\n    }\n  }\n}\n";
    assert_eq!(text, expected);
}

#[test]
fn enum_with_many_variants_uses_two_bytes() {
    let variants: Vec<String> = (0..300).map(|i| format!("V{}", i)).collect();
    let desc = TypeDescriptor::Enum { name: "Big".to_string(), variants: variants.clone() };
    let text = derive_to_js(&desc).unwrap();
    assert!(text.contains("switch (readU16(addr))"));
    assert!(text.contains("let write = writeU16;"));
    assert!(text.contains("\n      case 299:\n        return '"));
    assert_eq!(EnumCodec::new(&variants).unwrap().width(), 2);
}

#[test]
fn colliding_variants_are_rejected() {
    let desc = TypeDescriptor::Enum {
        name: "E".to_string(),
        variants: vec!["FooBar".to_string(), "Other".to_string(), "foo_bar".to_string()],
    };
    assert_eq!(derive_to_js(&desc).unwrap_err(), GenError::NameCollision(0, 2));
}

#[test]
fn color_codec_width_and_values() {
    let codec = EnumCodec::new(&vec!["Red".to_string(), "Green".to_string(), "Blue".to_string()])
        .unwrap();
    assert_eq!(codec.width(), 1);
    assert_eq!(codec.len(), 3);
    assert_eq!(codec.encode(&"red".to_string()), Ok(0));
    assert_eq!(codec.encode(&"green".to_string()), Ok(1));
    assert_eq!(codec.encode(&"blue".to_string()), Ok(2));
    assert_eq!(codec.decode(5), Err(CodecError::UnknownValue(5)));
    assert_eq!(codec.encode(&"purple".to_string()), Err(CodecError::UnknownLiteral));
}

#[test]
fn color_codec_round_trip() {
    let codec = EnumCodec::new(&vec!["Red".to_string(), "Green".to_string(), "Blue".to_string()])
        .unwrap();
    for lit in ["red", "green", "blue"] {
        let raw = codec.encode(&lit.to_string()).unwrap();
        assert_eq!(codec.decode(raw).unwrap(), lit);
    }
    for raw in 3..256u32 {
        assert_eq!(codec.decode(raw), Err(CodecError::UnknownValue(raw)));
    }
}

#[test]
fn empty_enum_uses_one_byte() {
    let codec = EnumCodec::new(&Vec::new()).unwrap();
    assert_eq!(codec.width(), 1);
    assert_eq!(codec.decode(0), Err(CodecError::UnknownValue(0)));
}

#[test]
fn newtype_binding_is_transparent() {
    let id = TypeDescriptor::Newtype { name: "Id".to_string(), inner: TypeRef::U32 };
    let t = derive_js_value(&id);
    for off in [0usize, 4, 17, 1000] {
        assert_eq!(t.js_getter(off), TypeRef::U32.js_getter(off));
        assert_eq!(t.js_setter(off, "v"), TypeRef::U32.js_setter(off, "v"));
    }
    assert_eq!(t.ty(), TypeRef::U32.ty());
    let wrapped = TypeRef::Newtype(Box::new(TypeRef::Enum("Color".to_string())));
    assert_eq!(wrapped.js_getter(3), "Color.get(this.addr + 3)");
    assert_eq!(wrapped.js_setter(3, "x"), "Color.set(this.addr + 3, x)");
    assert_eq!(wrapped.ty(), "ColorVariants");
}

#[test]
fn js_value_of_struct_and_enum() {
    let p = derive_js_value(&point());
    assert_eq!(p.js_getter(8), "Point.get(this.addr + 8)");
    assert_eq!(p.ty(), "Point");
    let c = derive_js_value(&color());
    assert_eq!(c.ty(), "ColorVariants");
    assert_eq!(c.js_setter(2, "value"), "Color.set(this.addr + 2, value)");
}

#[test]
fn decimal_text() {
    let mut s = String::from("at ");
    push_decimal(&mut s, 0);
    push_decimal(&mut s, 1234567);
    assert_eq!(s, "at 01234567");
}

#[test]
fn collision_search() {
    let names = vec!["a".to_string(), "b".to_string(), "c".to_string(), "b".to_string()];
    assert_eq!(first_collision(&names), Some((1, 3)));
    assert_eq!(first_collision(&vec!["a".to_string()]), None);
}

#[test]
fn ledger_drains_in_registration_order() {
    let mut ledger = Ledger::new();
    assert_eq!(ledger.register(&point()), Ok(()));
    assert_eq!(
        ledger.register(&TypeDescriptor::Newtype { name: "Id".to_string(), inner: TypeRef::U8 }),
        Err(GenError::Unsupported)
    );
    assert_eq!(ledger.register(&color()), Ok(()));
    assert_eq!(ledger.len(), 2);
    let expected = derive_to_js(&point()).unwrap() + &derive_to_js(&color()).unwrap();
    assert_eq!(ledger.drain(), expected);
}

#[test]
fn empty_ledger_drains_to_nothing() {
    assert_eq!(Ledger::new().drain(), "");
}

#[test]
fn slab_hands_out_disjoint_runs() {
    let mut slab = derive_slab_allocated(8, 1024, 10).unwrap();
    assert_eq!(slab.allocate(2), Some(1024));
    assert_eq!(slab.allocate(3), Some(1040));
    assert_eq!(slab.allocate(5), Some(1064));
    assert_eq!(slab.allocate(1), None);
    assert_eq!(slab.allocate(0), None);
}

#[test]
fn slab_reuses_released_runs() {
    let mut slab = derive_slab_allocated(4, 0, 8).unwrap();
    assert_eq!(slab.allocate(4), Some(0));
    assert_eq!(slab.allocate(2), Some(16));
    slab.deallocate(0, 4);
    assert_eq!(slab.allocate(1), Some(0));
    assert_eq!(slab.allocate(3), Some(4));
    assert_eq!(slab.allocate(2), Some(24));
    assert_eq!(slab.allocate(1), None);
}

#[test]
fn slabs_are_independent() {
    let mut a = derive_slab_allocated(16, 0, 4).unwrap();
    let mut b = derive_slab_allocated(16, 64, 4).unwrap();
    assert_eq!(a.allocate(1), Some(0));
    a.deallocate(0, 1);
    assert_eq!(b.allocate(1), Some(64));
    assert_eq!(b.allocate(1), Some(80));
    assert_eq!(a.allocate(2), Some(16));
    assert_eq!(a.allocate(1), Some(0));
}

#[test]
fn slab_fails_only_when_no_run_fits() {
    let mut slab = derive_slab_allocated(1, 0, 4).unwrap();
    assert_eq!(slab.allocate(3), Some(0));
    slab.deallocate(1, 2);
    assert_eq!(slab.allocate(3), None);
    assert_eq!(slab.allocate(2), Some(1));
    assert_eq!(slab.allocate(1), Some(3));
    assert_eq!(slab.allocate(1), None);
}

#[test]
fn non_ascii_names_are_rejected() {
    let desc = TypeDescriptor::Struct {
        name: "S".to_string(),
        fields: vec![field("a", TypeRef::U8, 1, 1), field("a\u{c9}", TypeRef::U8, 1, 1)],
    };
    assert_eq!(derive_to_js(&desc).unwrap_err(), GenError::NonAsciiName(1));
    let desc = TypeDescriptor::Enum {
        name: "E".to_string(),
        variants: vec!["\u{c9}t\u{e9}".to_string(), "Hiver".to_string()],
    };
    assert_eq!(derive_to_js(&desc).unwrap_err(), GenError::NonAsciiName(0));
    assert_eq!(EnumCodec::new(&vec!["a\u{c9}".to_string()]).err(), Some(GenError::NonAsciiName(0)));
}

#[test]
fn first_collision_is_reported() {
    let desc = TypeDescriptor::Struct {
        name: "Dup".to_string(),
        fields: vec![
            field("b_c", TypeRef::U8, 1, 1),
            field("x", TypeRef::U8, 1, 1),
            field("y", TypeRef::U8, 1, 1),
            field("bC", TypeRef::U8, 1, 1),
        ],
    };
    assert_eq!(derive_to_js(&desc).unwrap_err(), GenError::NameCollision(0, 3));
}

#[test]
fn shapes_of_types() {
    assert_eq!(shape_of(&point(), None), Ok(FieldShape { size: 8, align: 4 }));
    assert_eq!(shape_of(&color(), None), Ok(FieldShape { size: 1, align: 1 }));
    let id = TypeDescriptor::Newtype { name: "Id".to_string(), inner: TypeRef::U16 };
    let w = FieldShape { size: 2, align: 2 };
    assert_eq!(shape_of(&id, Some(w)), Ok(w));
    assert_eq!(shape_of(&id, None), Err(GenError::Unsupported));
    let bad = TypeDescriptor::Struct {
        name: "Bad".to_string(),
        fields: vec![field("a", TypeRef::U8, 1, 0)],
    };
    assert_eq!(shape_of(&bad, None), Err(GenError::Layout(LayoutError::ZeroAlignment(0))));
    let big: Vec<String> = (0..300).map(|i| format!("V{}", i)).collect();
    let big = TypeDescriptor::Enum { name: "Big".to_string(), variants: big };
    assert_eq!(shape_of(&big, None), Ok(FieldShape { size: 2, align: 2 }));
}

#[test]
fn slab_rejects_bad_regions() {
    assert_eq!(derive_slab_allocated(0, 0, 4).err(), Some(SlabError::ZeroElementSize));
    assert_eq!(derive_slab_allocated(4, 16, 1 << 30).err(), Some(SlabError::RegionTooLarge));
    assert!(derive_slab_allocated(4, 0, (1 << 30) - 1).is_ok());
    assert!(derive_slab_allocated(4, 4, (1 << 30) - 1).is_err());
}
