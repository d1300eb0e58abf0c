use vstd::prelude::*;
use crate::path::{PathV, TypePath};

verus! {

// ---------------------------------------------------------------------------
// Definitions, as the front-end registers them.
// ---------------------------------------------------------------------------

/// A struct-like body: no fields, positional fields, or named fields.
#[derive(Debug)]
pub enum Struct {
    Unit,
    Tuple(Vec<TypePath>),
    Struct(Vec<(String, TypePath)>),
}

/// A user type definition.
#[derive(Debug)]
pub enum Item {
    /// A record laid out field after field in declared order.
    Struct(Struct),
    /// A sum type: variants with an optional explicit discriminant value
    /// and a record payload.
    Enum(Vec<(String, Option<u64>, Struct)>),
    /// A raw union: every field at offset zero.
    Union(Vec<(String, TypePath)>),
    /// A name for another type; its layout is adopted unchanged.
    TypeAlias(TypePath),
}

/// One declaration as handed over by the front-end, before registration:
/// module groupings are flattened into qualified paths, and anything the
/// model cannot represent arrives as `Unsupported`.
#[derive(Debug)]
pub enum SourceItem {
    Mod(String, Vec<SourceItem>),
    Struct(String, Struct),
    Enum(String, Vec<(String, Option<u64>, Struct)>),
    Union(String, Vec<(String, TypePath)>),
    TypeAlias(String, TypePath),
    Unsupported(String),
}

// ---------------------------------------------------------------------------
// Errors.
// ---------------------------------------------------------------------------

/// View of a layout error.
pub ghost enum ErrorV {
    Duplicate(PathV),
    Unknown(PathV),
    Unsupported(PathV),
    InconsistentDisc(PathV),
    Recursive(Seq<PathV>),
    Overflow(PathV),
}

/// A terminal failure for one requested type.
#[derive(Debug)]
pub enum LayoutError {
    /// Two definitions share one path.
    DuplicateDefinition(TypePath),
    /// A field names a path absent from the catalog.
    UnknownTypeReference(TypePath),
    /// A declaration kind the model cannot represent.
    UnsupportedItemKind(TypePath),
    /// A sum type mixes explicit and implicit discriminant values.
    InconsistentDiscriminants(TypePath),
    /// A direct-containment cycle, carried as the full cycle path from the
    /// repeated type back to itself.
    RecursiveTypeError(Vec<TypePath>),
    /// A size computation does not fit the machine word.
    SizeOverflow(TypePath),
}

impl View for LayoutError {
    type V = ErrorV;

    open spec fn view(&self) -> ErrorV {
        match self {
            LayoutError::DuplicateDefinition(p) => ErrorV::Duplicate(p@),
            LayoutError::UnknownTypeReference(p) => ErrorV::Unknown(p@),
            LayoutError::UnsupportedItemKind(p) => ErrorV::Unsupported(p@),
            LayoutError::InconsistentDiscriminants(p) => ErrorV::InconsistentDisc(p@),
            LayoutError::RecursiveTypeError(ps) => ErrorV::Recursive(
                ps@.map_values(|p: TypePath| p@),
            ),
            LayoutError::SizeOverflow(p) => ErrorV::Overflow(p@),
        }
    }
}

// ---------------------------------------------------------------------------
// Resolved layouts.
// ---------------------------------------------------------------------------

/// What a field row is labelled with.
#[derive(Debug)]
pub enum FieldName {
    /// A named record or union field.
    Named(String),
    /// A positional (tuple) field.
    Index(usize),
    /// The leading tag of a sum type.
    Discriminant,
}

/// View of a field label.
pub ghost enum FieldNameV {
    Named(Seq<char>),
    Index(nat),
    Discriminant,
}

impl View for FieldName {
    type V = FieldNameV;

    open spec fn view(&self) -> FieldNameV {
        match self {
            FieldName::Named(s) => FieldNameV::Named(s@),
            FieldName::Index(i) => FieldNameV::Index(*i as nat),
            FieldName::Discriminant => FieldNameV::Discriminant,
        }
    }
}

impl Clone for FieldName {
    /// The clone denotes the same label.
    fn clone(&self) -> (r: Self)
        ensures
            r@ == self@,
    {
        match self {
            FieldName::Named(s) => FieldName::Named(s.clone()),
            FieldName::Index(i) => FieldName::Index(*i),
            FieldName::Discriminant => FieldName::Discriminant,
        }
    }
}

/// One field of a resolved layout.
#[derive(Debug)]
pub struct FieldLayout {
    pub identifier: FieldName,
    pub offset: usize,
    pub size: usize,
    pub align: usize,
}

#[verifier::ext_equal]
pub ghost struct FieldLayoutV {
    pub identifier: FieldNameV,
    pub offset: nat,
    pub size: nat,
    pub align: nat,
}

impl View for FieldLayout {
    type V = FieldLayoutV;

    open spec fn view(&self) -> FieldLayoutV {
        FieldLayoutV {
            identifier: self.identifier@,
            offset: self.offset as nat,
            size: self.size as nat,
            align: self.align as nat,
        }
    }
}

impl Clone for FieldLayout {
    /// The clone denotes the same field row.
    fn clone(&self) -> (r: Self)
        ensures
            r@ == self@,
    {
        FieldLayout {
            identifier: self.identifier.clone(),
            offset: self.offset,
            size: self.size,
            align: self.align,
        }
    }
}

/// One gap of unused bytes.
#[derive(Debug)]
pub struct PaddingSegment {
    pub offset: usize,
    pub length: usize,
}

#[verifier::ext_equal]
pub ghost struct PadV {
    pub offset: nat,
    pub length: nat,
}

impl View for PaddingSegment {
    type V = PadV;

    open spec fn view(&self) -> PadV {
        PadV { offset: self.offset as nat, length: self.length as nat }
    }
}

impl Clone for PaddingSegment {
    /// The clone denotes the same gap.
    fn clone(&self) -> (r: Self)
        ensures
            r@ == self@,
    {
        PaddingSegment { offset: self.offset, length: self.length }
    }
}

/// A resolved record body: fields at their offsets plus explicit padding.
#[derive(Debug)]
pub struct RecordLayout {
    pub size: usize,
    pub align: usize,
    pub fields: Vec<FieldLayout>,
    pub padding: Vec<PaddingSegment>,
}

#[verifier::ext_equal]
pub ghost struct RecordLayoutV {
    pub size: nat,
    pub align: nat,
    pub fields: Seq<FieldLayoutV>,
    pub padding: Seq<PadV>,
}

impl View for RecordLayout {
    type V = RecordLayoutV;

    open spec fn view(&self) -> RecordLayoutV {
        RecordLayoutV {
            size: self.size as nat,
            align: self.align as nat,
            fields: self.fields@.map_values(|f: FieldLayout| f@),
            padding: self.padding@.map_values(|p: PaddingSegment| p@),
        }
    }
}

impl Clone for RecordLayout {
    /// The clone denotes the same record layout.
    fn clone(&self) -> (r: Self)
        ensures
            r@ == self@,
    {
        let r = RecordLayout {
            size: self.size,
            align: self.align,
            fields: clone_fields(&self.fields),
            padding: clone_padding(&self.padding),
        };
        proof {
            assert(r@.fields =~= self@.fields);
            assert(r@.padding =~= self@.padding);
            assert(r@ =~= self@);
        }
        r
    }
}

/// One variant of a resolved sum type: its payload, laid out as a record,
/// placed at the shared payload offset.
#[derive(Debug)]
pub struct VariantLayout {
    pub name: String,
    pub offset: usize,
    pub payload: RecordLayout,
}

#[verifier::ext_equal]
pub ghost struct VariantV {
    pub name: Seq<char>,
    pub offset: nat,
    pub payload: RecordLayoutV,
}

impl View for VariantLayout {
    type V = VariantV;

    open spec fn view(&self) -> VariantV {
        VariantV { name: self.name@, offset: self.offset as nat, payload: self.payload@ }
    }
}

impl Clone for VariantLayout {
    /// The clone denotes the same variant layout.
    fn clone(&self) -> (r: Self)
        ensures
            r@ == self@,
    {
        let r = VariantLayout {
            name: self.name.clone(),
            offset: self.offset,
            payload: self.payload.clone(),
        };
        proof {
            assert(r@ =~= self@);
        }
        r
    }
}

/// The resolved output for one path: size, alignment, field offsets, the
/// padding gaps, and, for a sum type, the per-variant payload layouts.
#[derive(Debug)]
pub struct Layout {
    pub size: usize,
    pub align: usize,
    pub fields: Vec<FieldLayout>,
    pub padding: Vec<PaddingSegment>,
    pub variants: Vec<VariantLayout>,
}

#[verifier::ext_equal]
pub ghost struct LayoutV {
    pub size: nat,
    pub align: nat,
    pub fields: Seq<FieldLayoutV>,
    pub padding: Seq<PadV>,
    pub variants: Seq<VariantV>,
}

impl View for Layout {
    type V = LayoutV;

    open spec fn view(&self) -> LayoutV {
        LayoutV {
            size: self.size as nat,
            align: self.align as nat,
            fields: self.fields@.map_values(|f: FieldLayout| f@),
            padding: self.padding@.map_values(|p: PaddingSegment| p@),
            variants: self.variants@.map_values(|v: VariantLayout| v@),
        }
    }
}

impl Clone for Layout {
    /// The clone denotes the same layout.
    fn clone(&self) -> (r: Self)
        ensures
            r@ == self@,
    {
        let mut variants: Vec<VariantLayout> = Vec::new();
        let mut i: usize = 0;
        while i < self.variants.len()
            invariant
                i <= self.variants.len(),
                variants@.len() == i,
                forall|j: int| 0 <= j < i ==> variants@[j]@ == self.variants@[j]@,
            decreases self.variants.len() - i,
        {
            variants.push(self.variants[i].clone());
            i = i + 1;
        }
        let r = Layout {
            size: self.size,
            align: self.align,
            fields: clone_fields(&self.fields),
            padding: clone_padding(&self.padding),
            variants,
        };
        proof {
            assert(r@.fields =~= self@.fields);
            assert(r@.padding =~= self@.padding);
            assert(r@.variants =~= self@.variants);
            assert(r@ =~= self@);
        }
        r
    }
}

fn clone_fields(fields: &Vec<FieldLayout>) -> (r: Vec<FieldLayout>)
    ensures
        r@.len() == fields@.len(),
        forall|j: int| 0 <= j < fields@.len() ==> r@[j]@ == fields@[j]@,
{
    let mut out: Vec<FieldLayout> = Vec::new();
    let mut i: usize = 0;
    while i < fields.len()
        invariant
            i <= fields.len(),
            out@.len() == i,
            forall|j: int| 0 <= j < i ==> out@[j]@ == fields@[j]@,
        decreases fields.len() - i,
    {
        out.push(fields[i].clone());
        i = i + 1;
    }
    out
}

fn clone_padding(padding: &Vec<PaddingSegment>) -> (r: Vec<PaddingSegment>)
    ensures
        r@.len() == padding@.len(),
        forall|j: int| 0 <= j < padding@.len() ==> r@[j]@ == padding@[j]@,
{
    let mut out: Vec<PaddingSegment> = Vec::new();
    let mut i: usize = 0;
    while i < padding.len()
        invariant
            i <= padding.len(),
            out@.len() == i,
            forall|j: int| 0 <= j < i ==> out@[j]@ == padding@[j]@,
        decreases padding.len() - i,
    {
        out.push(padding[i].clone());
        i = i + 1;
    }
    out
}

// ---------------------------------------------------------------------------
// The fields a struct body directly contains.
// ---------------------------------------------------------------------------

/// The labels of a struct body's fields, in declared order.
pub open spec fn struct_field_names(s: Struct) -> Seq<FieldNameV> {
    match s {
        Struct::Unit => Seq::<FieldNameV>::empty(),
        Struct::Tuple(ts) => Seq::new(ts@.len(), |i: int| FieldNameV::Index(i as nat)),
        Struct::Struct(fs) => fs@.map_values(|f: (String, TypePath)| FieldNameV::Named(f.0@)),
    }
}

/// The paths of the types a struct body directly contains, in declared order.
pub open spec fn struct_field_paths(s: Struct) -> Seq<PathV> {
    match s {
        Struct::Unit => Seq::<PathV>::empty(),
        Struct::Tuple(ts) => ts@.map_values(|t: TypePath| t@),
        Struct::Struct(fs) => fs@.map_values(|f: (String, TypePath)| f.1@),
    }
}

/// Flattens a struct body into labelled field references.
pub fn struct_fields(s: &Struct) -> (r: Vec<(FieldName, TypePath)>)
    ensures
        r@.len() == struct_field_paths(*s).len(),
        struct_field_names(*s).len() == struct_field_paths(*s).len(),
        forall|j: int|
            0 <= j < r@.len() ==> (#[trigger] r@[j]).0@ == struct_field_names(*s)[j] && r@[j].1@
                == struct_field_paths(*s)[j],
{
    match s {
        Struct::Unit => {
            let out: Vec<(FieldName, TypePath)> = Vec::new();
            proof {
                assert(struct_field_paths(*s) =~= Seq::<PathV>::empty());
                assert(struct_field_names(*s) =~= Seq::<FieldNameV>::empty());
            }
            out
        },
        Struct::Tuple(ts) => {
            let mut out: Vec<(FieldName, TypePath)> = Vec::new();
            let mut i: usize = 0;
            while i < ts.len()
                invariant
                    i <= ts.len(),
                    out@.len() == i,
                    forall|j: int|
                        0 <= j < i ==> (#[trigger] out@[j]).0@ == FieldNameV::Index(j as nat)
                            && out@[j].1@ == ts@[j]@,
                decreases ts.len() - i,
            {
                out.push((FieldName::Index(i), ts[i].clone()));
                i = i + 1;
            }
            out
        },
        Struct::Struct(fs) => {
            let mut out: Vec<(FieldName, TypePath)> = Vec::new();
            let mut i: usize = 0;
            while i < fs.len()
                invariant
                    i <= fs.len(),
                    out@.len() == i,
                    forall|j: int|
                        0 <= j < i ==> (#[trigger] out@[j]).0@ == FieldNameV::Named(fs@[j].0@)
                            && out@[j].1@ == fs@[j].1@,
                decreases fs.len() - i,
            {
                out.push((FieldName::Named(fs[i].0.clone()), fs[i].1.clone()));
                i = i + 1;
            }
            out
        },
    }
}

} // verus!
