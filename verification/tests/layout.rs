use pahole::catalog::Data;
use pahole::model::{FieldName, Item, LayoutError, SourceItem, Struct};
use pahole::path::TypePath;
use pahole::report::{generate_report, report_for, ReportRow};

fn path(segments: &[&str]) -> TypePath {
    TypePath {
        absolute: false,
        segments: segments.iter().map(|s| s.to_string()).collect(),
    }
}

#[test]
fn record_with_trailing_padding() {
    // Record{b: 8-byte/align-8, c: 1-byte/align-1}: b at 0, c at 8,
    // 7 trailing padding bytes, size 16, align 8.
    let mut d = Data::new();
    d.register_type(
        path(&["S"]),
        Item::Struct(Struct::Struct(vec![
            ("b".to_string(), path(&["u64"])),
            ("c".to_string(), path(&["u8"])),
        ])),
    )
    .unwrap();
    let l = d.resolve(&path(&["S"])).unwrap();
    assert_eq!(l.size, 16);
    assert_eq!(l.align, 8);
    assert_eq!(l.fields.len(), 2);
    assert_eq!(l.fields[0].offset, 0);
    assert_eq!(l.fields[0].size, 8);
    assert!(matches!(&l.fields[0].identifier, FieldName::Named(n) if n == "b"));
    assert_eq!(l.fields[1].offset, 8);
    assert_eq!(l.fields[1].size, 1);
    assert!(matches!(&l.fields[1].identifier, FieldName::Named(n) if n == "c"));
    assert_eq!(l.padding.len(), 1);
    assert_eq!(l.padding[0].offset, 9);
    assert_eq!(l.padding[0].length, 7);
    assert!(l.variants.is_empty());
}

#[test]
fn record_utilization_nine_sixteenths() {
    let mut d = Data::new();
    d.register_type(
        path(&["S"]),
        Item::Struct(Struct::Struct(vec![
            ("b".to_string(), path(&["u64"])),
            ("c".to_string(), path(&["u8"])),
        ])),
    )
    .unwrap();
    let l = d.resolve(&path(&["S"])).unwrap();
    let rep = generate_report(&l);
    assert_eq!(rep.size, 16);
    assert_eq!(rep.padding_bytes, 7);
    assert_eq!(rep.used_bytes, 9);
    // Rows in offset order: b, c, then the trailing gap.
    assert_eq!(rep.rows.len(), 3);
    assert!(matches!(rep.rows[0], ReportRow::Field { offset: 0, size: 8, .. }));
    assert!(matches!(rep.rows[1], ReportRow::Field { offset: 8, size: 1, .. }));
    assert!(matches!(rep.rows[2], ReportRow::Padding { offset: 9, length: 7 }));
}

#[test]
fn empty_unit_record() {
    // Empty unit record: size 0, align 1, no fields, no padding.
    let mut d = Data::new();
    d.register_type(path(&["Empty"]), Item::Struct(Struct::Unit)).unwrap();
    let l = d.resolve(&path(&["Empty"])).unwrap();
    assert_eq!(l.size, 0);
    assert_eq!(l.align, 1);
    assert!(l.fields.is_empty());
    assert!(l.padding.is_empty());
}

#[test]
fn raw_union_size_and_offsets() {
    // RawUnion{x: 4-byte/align-4, y: 8-byte/align-8}: size 8, align 8,
    // both fields at offset 0.
    let mut d = Data::new();
    d.register_type(
        path(&["U"]),
        Item::Union(vec![
            ("x".to_string(), path(&["u32"])),
            ("y".to_string(), path(&["u64"])),
        ]),
    )
    .unwrap();
    let l = d.resolve(&path(&["U"])).unwrap();
    assert_eq!(l.size, 8);
    assert_eq!(l.align, 8);
    assert_eq!(l.fields.len(), 2);
    assert_eq!(l.fields[0].offset, 0);
    assert_eq!(l.fields[1].offset, 0);
    // The largest field covers the full rounded size: no trailing gap.
    assert!(l.padding.is_empty());
}

#[test]
fn raw_union_trailing_padding() {
    // A union of one 3-byte... no builtin of size 3; use u8 and u32:
    // max size 4, align 4: no gap. For a gap, use an opaque 5/1 entry
    // against an 8-aligned member: size rounds 8 -> 3 trailing bytes.
    let mut d = Data::new();
    d.cache_layout(
        path(&["Blob5"]),
        pahole::model::Layout {
            size: 5,
            align: 1,
            fields: Vec::new(),
            padding: Vec::new(),
            variants: Vec::new(),
        },
    )
    .unwrap();
    d.register_type(
        path(&["U"]),
        Item::Union(vec![
            ("a".to_string(), path(&["Blob5"])),
            ("b".to_string(), path(&["u64"])),
        ]),
    )
    .unwrap();
    let l = d.resolve(&path(&["U"])).unwrap();
    assert_eq!(l.size, 8);
    assert_eq!(l.align, 8);
    assert!(l.padding.is_empty());
    // And one where the largest member is unaligned: 5 bytes at align 8.
    let mut d2 = Data::new();
    d2.cache_layout(
        path(&["Blob5"]),
        pahole::model::Layout {
            size: 5,
            align: 8,
            fields: Vec::new(),
            padding: Vec::new(),
            variants: Vec::new(),
        },
    )
    .unwrap();
    d2.register_type(
        path(&["U"]),
        Item::Union(vec![("a".to_string(), path(&["Blob5"]))]),
    )
    .unwrap();
    let l2 = d2.resolve(&path(&["U"])).unwrap();
    assert_eq!(l2.size, 8);
    assert_eq!(l2.padding.len(), 1);
    assert_eq!(l2.padding[0].offset, 5);
    assert_eq!(l2.padding[0].length, 3);
}

#[test]
fn sum_type_two_variants() {
    // SumType with A (no payload) and B(4-byte/align-4): discriminant 1
    // byte, payload at offset 4, total size 8, align 4.
    let mut d = Data::new();
    d.register_type(
        path(&["E"]),
        Item::Enum(vec![
            ("A".to_string(), None, Struct::Unit),
            ("B".to_string(), None, Struct::Tuple(vec![path(&["u32"])])),
        ]),
    )
    .unwrap();
    let l = d.resolve(&path(&["E"])).unwrap();
    assert_eq!(l.size, 8);
    assert_eq!(l.align, 4);
    assert_eq!(l.fields.len(), 1);
    assert!(matches!(l.fields[0].identifier, FieldName::Discriminant));
    assert_eq!(l.fields[0].offset, 0);
    assert_eq!(l.fields[0].size, 1);
    assert_eq!(l.variants.len(), 2);
    assert_eq!(l.variants[0].offset, 4);
    assert_eq!(l.variants[1].offset, 4);
    assert_eq!(l.variants[1].payload.size, 4);
    // The gap between the 1-byte discriminant and the payload area.
    assert_eq!(l.padding.len(), 1);
    assert_eq!(l.padding[0].offset, 1);
    assert_eq!(l.padding[0].length, 3);
}

#[test]
fn sum_type_three_positional_variants_need_one_byte() {
    // Three positional variants: values 0..2 fit the 1-byte unsigned width.
    let mut d = Data::new();
    d.register_type(
        path(&["E"]),
        Item::Enum(vec![
            ("A".to_string(), None, Struct::Unit),
            ("B".to_string(), None, Struct::Unit),
            ("C".to_string(), None, Struct::Unit),
        ]),
    )
    .unwrap();
    let l = d.resolve(&path(&["E"])).unwrap();
    assert_eq!(l.fields[0].size, 1);
    assert_eq!(l.size, 1);
    assert_eq!(l.align, 1);
}

#[test]
fn sum_type_explicit_discriminants_widen() {
    // An explicit value of 300 does not fit one byte: the discriminant
    // takes the 2-byte width.
    let mut d = Data::new();
    d.register_type(
        path(&["E"]),
        Item::Enum(vec![
            ("A".to_string(), Some(0), Struct::Unit),
            ("B".to_string(), Some(300), Struct::Unit),
        ]),
    )
    .unwrap();
    let l = d.resolve(&path(&["E"])).unwrap();
    assert_eq!(l.fields[0].size, 2);
    assert_eq!(l.fields[0].align, 2);
}

#[test]
fn mixed_discriminants_are_inconsistent() {
    let mut d = Data::new();
    d.register_type(
        path(&["E"]),
        Item::Enum(vec![
            ("A".to_string(), Some(1), Struct::Unit),
            ("B".to_string(), None, Struct::Unit),
        ]),
    )
    .unwrap();
    let e = d.resolve(&path(&["E"])).unwrap_err();
    assert!(matches!(e, LayoutError::InconsistentDiscriminants(p) if p.segments == ["E"]));
}

#[test]
fn self_referential_record_is_rejected() {
    // A record directly containing a field of its own path fails with
    // the recursion error naming the single-node cycle.
    let mut d = Data::new();
    d.register_type(
        path(&["R"]),
        Item::Struct(Struct::Struct(vec![("next".to_string(), path(&["R"]))])),
    )
    .unwrap();
    let e = d.resolve(&path(&["R"])).unwrap_err();
    match e {
        LayoutError::RecursiveTypeError(cycle) => {
            assert_eq!(cycle.len(), 2);
            assert_eq!(cycle[0].segments, ["R"]);
            assert_eq!(cycle[1].segments, ["R"]);
        }
        other => panic!("expected a recursion error, got {:?}", discriminant_name(&other)),
    }
}

#[test]
fn indirection_wrapper_breaks_the_cycle() {
    // The same record through a fixed-size wrapper resolves: the wrapper
    // is registered with its own layout and no containment edge.
    let mut d = Data::new();
    d.cache_layout(
        path(&["BoxOfR"]),
        pahole::model::Layout {
            size: 8,
            align: 8,
            fields: Vec::new(),
            padding: Vec::new(),
            variants: Vec::new(),
        },
    )
    .unwrap();
    d.register_type(
        path(&["R"]),
        Item::Struct(Struct::Struct(vec![
            ("value".to_string(), path(&["u32"])),
            ("next".to_string(), path(&["BoxOfR"])),
        ])),
    )
    .unwrap();
    let l = d.resolve(&path(&["R"])).unwrap();
    assert_eq!(l.size, 16);
    assert_eq!(l.align, 8);
    assert_eq!(l.fields[1].offset, 8);
}

#[test]
fn mutual_recursion_is_rejected_with_full_cycle() {
    let mut d = Data::new();
    d.register_type(
        path(&["A"]),
        Item::Struct(Struct::Struct(vec![("b".to_string(), path(&["B"]))])),
    )
    .unwrap();
    d.register_type(
        path(&["B"]),
        Item::Struct(Struct::Struct(vec![("a".to_string(), path(&["A"]))])),
    )
    .unwrap();
    let e = d.resolve(&path(&["A"])).unwrap_err();
    match e {
        LayoutError::RecursiveTypeError(cycle) => {
            assert_eq!(cycle.len(), 3);
            assert_eq!(cycle[0].segments, ["A"]);
            assert_eq!(cycle[1].segments, ["B"]);
            assert_eq!(cycle[2].segments, ["A"]);
        }
        _ => panic!("expected a recursion error"),
    }
}

#[test]
fn unknown_reference_is_reported() {
    let mut d = Data::new();
    d.register_type(
        path(&["S"]),
        Item::Struct(Struct::Struct(vec![("x".to_string(), path(&["Missing"]))])),
    )
    .unwrap();
    let e = d.resolve(&path(&["S"])).unwrap_err();
    assert!(matches!(e, LayoutError::UnknownTypeReference(p) if p.segments == ["Missing"]));
}

#[test]
fn duplicate_registration_fails() {
    let mut d = Data::new();
    d.register_type(path(&["S"]), Item::Struct(Struct::Unit)).unwrap();
    let e = d.register_type(path(&["S"]), Item::Struct(Struct::Unit)).unwrap_err();
    assert!(matches!(e, LayoutError::DuplicateDefinition(p) if p.segments == ["S"]));
    // A builtin path is taken too.
    let e2 = d.register_type(path(&["u8"]), Item::Struct(Struct::Unit)).unwrap_err();
    assert!(matches!(e2, LayoutError::DuplicateDefinition(p) if p.segments == ["u8"]));
}

#[test]
fn alias_adopts_target_layout() {
    let mut d = Data::new();
    d.register_type(path(&["Word"]), Item::TypeAlias(path(&["u64"]))).unwrap();
    let l = d.resolve(&path(&["Word"])).unwrap();
    assert_eq!(l.size, 8);
    assert_eq!(l.align, 8);
    assert!(l.fields.is_empty());
}

#[test]
fn tuple_record_fields_are_indexed() {
    let mut d = Data::new();
    d.register_type(
        path(&["T"]),
        Item::Struct(Struct::Tuple(vec![path(&["u8"]), path(&["u32"])])),
    )
    .unwrap();
    let l = d.resolve(&path(&["T"])).unwrap();
    assert!(matches!(l.fields[0].identifier, FieldName::Index(0)));
    assert!(matches!(l.fields[1].identifier, FieldName::Index(1)));
    assert_eq!(l.fields[1].offset, 4);
    assert_eq!(l.size, 8);
    assert_eq!(l.padding.len(), 1);
    assert_eq!(l.padding[0].offset, 1);
    assert_eq!(l.padding[0].length, 3);
}

#[test]
fn resolving_twice_returns_identical_layout() {
    // Determinism: the layout is computed once, cached, and every later
    // request returns the identical value.
    let mut d = Data::new();
    d.register_type(
        path(&["S"]),
        Item::Struct(Struct::Struct(vec![
            ("b".to_string(), path(&["u64"])),
            ("c".to_string(), path(&["u8"])),
        ])),
    )
    .unwrap();
    let l1 = d.resolve(&path(&["S"])).unwrap();
    let l2 = d.resolve(&path(&["S"])).unwrap();
    assert_eq!(l1.size, l2.size);
    assert_eq!(l1.align, l2.align);
    assert_eq!(l1.fields.len(), l2.fields.len());
    for (a, b) in l1.fields.iter().zip(l2.fields.iter()) {
        assert_eq!(a.offset, b.offset);
        assert_eq!(a.size, b.size);
        assert_eq!(a.align, b.align);
    }
    assert_eq!(l1.padding.len(), l2.padding.len());
}

#[test]
fn same_definitions_same_layout_across_catalogs() {
    // Determinism across independently built catalogs, with the shared
    // dependency resolved through different roots first.
    let defs = |d: &mut Data| {
        d.register_type(
            path(&["Inner"]),
            Item::Struct(Struct::Struct(vec![("x".to_string(), path(&["u16"]))])),
        )
        .unwrap();
        d.register_type(
            path(&["A"]),
            Item::Struct(Struct::Struct(vec![("i".to_string(), path(&["Inner"]))])),
        )
        .unwrap();
        d.register_type(
            path(&["B"]),
            Item::Struct(Struct::Struct(vec![
                ("i".to_string(), path(&["Inner"])),
                ("y".to_string(), path(&["u64"])),
            ])),
        )
        .unwrap();
    };
    let mut d1 = Data::new();
    defs(&mut d1);
    let mut d2 = Data::new();
    defs(&mut d2);
    // Different traversal orders respecting dependencies.
    let a1 = d1.resolve(&path(&["A"])).unwrap();
    let b1 = d1.resolve(&path(&["B"])).unwrap();
    let b2 = d2.resolve(&path(&["B"])).unwrap();
    let a2 = d2.resolve(&path(&["A"])).unwrap();
    assert_eq!(a1.size, a2.size);
    assert_eq!(a1.align, a2.align);
    assert_eq!(b1.size, b2.size);
    assert_eq!(b1.align, b2.align);
    assert_eq!(b1.fields[1].offset, b2.fields[1].offset);
}

#[test]
fn add_item_registers_nested_modules() {
    let mut d = Data::new();
    d.add_item(
        TypePath::new(),
        SourceItem::Mod(
            "outer".to_string(),
            vec![SourceItem::Struct(
                "S".to_string(),
                Struct::Struct(vec![("x".to_string(), path(&["u32"]))]),
            )],
        ),
    )
    .unwrap();
    let l = d.resolve(&path(&["outer", "S"])).unwrap();
    assert_eq!(l.size, 4);
}

#[test]
fn add_item_rejects_unsupported_kinds() {
    let mut d = Data::new();
    let e = d
        .add_item(TypePath::new(), SourceItem::Unsupported("some_fn".to_string()))
        .unwrap_err();
    assert!(matches!(e, LayoutError::UnsupportedItemKind(p) if p.segments == ["some_fn"]));
}

#[test]
fn report_expands_record_fields() {
    let mut d = Data::new();
    d.register_type(
        path(&["Inner"]),
        Item::Struct(Struct::Struct(vec![("x".to_string(), path(&["u16"]))])),
    )
    .unwrap();
    d.register_type(
        path(&["Outer"]),
        Item::Struct(Struct::Struct(vec![("i".to_string(), path(&["Inner"]))])),
    )
    .unwrap();
    d.resolve(&path(&["Outer"])).unwrap();
    let flat = report_for(&d, &path(&["Outer"]), 0).unwrap();
    let deep = report_for(&d, &path(&["Outer"]), 1).unwrap();
    assert_eq!(flat.size, 2);
    assert_eq!(deep.size, 2);
    assert!(deep.rows.len() > flat.rows.len());
    assert!(report_for(&d, &path(&["Nowhere"]), 0).is_none());
}

#[test]
fn sum_type_report_has_variant_sections() {
    let mut d = Data::new();
    d.register_type(
        path(&["E"]),
        Item::Enum(vec![
            ("A".to_string(), None, Struct::Unit),
            ("B".to_string(), None, Struct::Tuple(vec![path(&["u32"])])),
        ]),
    )
    .unwrap();
    let l = d.resolve(&path(&["E"])).unwrap();
    let rep = generate_report(&l);
    let headings: Vec<&String> = rep
        .rows
        .iter()
        .filter_map(|r| match r {
            ReportRow::Variant { name } => Some(name),
            _ => None,
        })
        .collect();
    assert_eq!(headings.len(), 2);
    assert_eq!(headings[0], "A");
    assert_eq!(headings[1], "B");
}

fn discriminant_name(e: &LayoutError) -> &'static str {
    match e {
        LayoutError::DuplicateDefinition(_) => "DuplicateDefinition",
        LayoutError::UnknownTypeReference(_) => "UnknownTypeReference",
        LayoutError::UnsupportedItemKind(_) => "UnsupportedItemKind",
        LayoutError::InconsistentDiscriminants(_) => "InconsistentDiscriminants",
        LayoutError::RecursiveTypeError(_) => "RecursiveTypeError",
        LayoutError::SizeOverflow(_) => "SizeOverflow",
    }
}
