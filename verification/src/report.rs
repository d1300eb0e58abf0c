use vstd::prelude::*;
use crate::calc::sum_pad_lengths;
use crate::catalog::Data;
use crate::model::{
    FieldLayout, FieldLayoutV, FieldName, FieldNameV, Layout, LayoutV, PadV, PaddingSegment,
    VariantV,
};
use crate::path::{PathV, TypePath};

verus! {

// ---------------------------------------------------------------------------
// Rows.
// ---------------------------------------------------------------------------

/// One row of a rendered layout report.
pub enum ReportRow {
    /// A field at its byte offset.
    Field { label: FieldName, offset: usize, size: usize },
    /// A gap of unused bytes.
    Padding { offset: usize, length: usize },
    /// A heading introducing one variant's payload rows; the payload rows
    /// that follow it use offsets relative to the shared payload area.
    Variant { name: String },
}

/// View of a report row.
pub ghost enum RowV {
    Field { label: FieldNameV, offset: nat, size: nat },
    Padding { offset: nat, length: nat },
    Variant { name: Seq<char> },
}

impl View for ReportRow {
    type V = RowV;

    open spec fn view(&self) -> RowV {
        match self {
            ReportRow::Field { label, offset, size } => RowV::Field {
                label: label@,
                offset: *offset as nat,
                size: *size as nat,
            },
            ReportRow::Padding { offset, length } => RowV::Padding {
                offset: *offset as nat,
                length: *length as nat,
            },
            ReportRow::Variant { name } => RowV::Variant { name: name@ },
        }
    }
}

/// The views of a row list.
pub open spec fn rows_v(s: Seq<ReportRow>) -> Seq<RowV> {
    s.map_values(|r: ReportRow| r@)
}

/// Field and padding rows merged in ascending offset order, starting at
/// positions `i` and `j`.
pub open spec fn merge_rows(fields: Seq<FieldLayoutV>, pads: Seq<PadV>, i: int, j: int) -> Seq<
    RowV,
>
    recommends
        0 <= i <= fields.len(),
        0 <= j <= pads.len(),
    decreases fields.len() - i, pads.len() - j,
{
    if i >= fields.len() && j >= pads.len() {
        Seq::<RowV>::empty()
    } else if i < fields.len() && (j >= pads.len() || fields[i].offset <= pads[j].offset) {
        seq![
            RowV::Field {
                label: fields[i].identifier,
                offset: fields[i].offset,
                size: fields[i].size,
            },
        ] + merge_rows(fields, pads, i + 1, j)
    } else {
        seq![RowV::Padding { offset: pads[j].offset, length: pads[j].length }] + merge_rows(
            fields,
            pads,
            i,
            j + 1,
        )
    }
}

/// The rows of a sum type's variants: one heading per variant, then its
/// payload's rows.
pub open spec fn variant_rows(vs: Seq<VariantV>) -> Seq<RowV>
    decreases vs.len(),
{
    if vs.len() == 0 {
        Seq::<RowV>::empty()
    } else {
        variant_rows(vs.drop_last()) + seq![RowV::Variant { name: vs.last().name }] + merge_rows(
            vs.last().payload.fields,
            vs.last().payload.padding,
            0,
            0,
        )
    }
}

/// All rows of one layout, without expansion: merged fields and padding,
/// then the variant sections.
pub open spec fn flat_rows(l: LayoutV) -> Seq<RowV> {
    merge_rows(l.fields, l.padding, 0, 0) + variant_rows(l.variants)
}

// ---------------------------------------------------------------------------
// The report.
// ---------------------------------------------------------------------------

/// A rendered layout summary. The utilization ratio is `used_bytes` over
/// `size`; it is reported as the two integers to keep the value exact.
/// Sum-type rows describe the advisory, declaration-order model.
pub struct Report {
    pub rows: Vec<ReportRow>,
    pub size: usize,
    pub align: usize,
    pub padding_bytes: usize,
    pub used_bytes: usize,
}

fn merge_exec(fields: &Vec<FieldLayout>, pads: &Vec<PaddingSegment>, out: &mut Vec<ReportRow>)
    ensures
        rows_v(final(out)@) == rows_v(old(out)@) + merge_rows(
            fields@.map_values(|f: FieldLayout| f@),
            pads@.map_values(|p: PaddingSegment| p@),
            0,
            0,
        ),
{
    let ghost fv = fields@.map_values(|f: FieldLayout| f@);
    let ghost pv = pads@.map_values(|p: PaddingSegment| p@);
    let ghost out0 = out@;
    let mut i: usize = 0;
    let mut j: usize = 0;
    while i < fields.len() || j < pads.len()
        invariant
            i <= fields@.len(),
            j <= pads@.len(),
            fv == fields@.map_values(|f: FieldLayout| f@),
            pv == pads@.map_values(|p: PaddingSegment| p@),
            rows_v(out0) + merge_rows(fv, pv, 0, 0) == rows_v(out@) + merge_rows(
                fv,
                pv,
                i as int,
                j as int,
            ),
        decreases fields@.len() - i + pads@.len() - j,
    {
        let ghost before = out@;
        let take_field = if i < fields.len() {
            if j >= pads.len() {
                true
            } else {
                fields[i].offset <= pads[j].offset
            }
        } else {
            false
        };
        if take_field {
            out.push(
                ReportRow::Field {
                    label: fields[i].identifier.clone(),
                    offset: fields[i].offset,
                    size: fields[i].size,
                },
            );
            proof {
                assert(rows_v(out@) =~= rows_v(before).push(
                    RowV::Field { label: fv[i as int].identifier, offset: fv[i as int].offset, size: fv[i as int].size },
                ));
                assert(merge_rows(fv, pv, i as int, j as int) =~= seq![
                    RowV::Field { label: fv[i as int].identifier, offset: fv[i as int].offset, size: fv[i as int].size },
                ] + merge_rows(fv, pv, i + 1, j as int));
                assert(rows_v(out0) + merge_rows(fv, pv, 0, 0) =~= rows_v(out@) + merge_rows(
                    fv,
                    pv,
                    i + 1,
                    j as int,
                ));
            }
            i = i + 1;
        } else {
            out.push(ReportRow::Padding { offset: pads[j].offset, length: pads[j].length });
            proof {
                assert(rows_v(out@) =~= rows_v(before).push(
                    RowV::Padding { offset: pv[j as int].offset, length: pv[j as int].length },
                ));
                assert(merge_rows(fv, pv, i as int, j as int) =~= seq![
                    RowV::Padding { offset: pv[j as int].offset, length: pv[j as int].length },
                ] + merge_rows(fv, pv, i as int, j + 1));
                assert(rows_v(out0) + merge_rows(fv, pv, 0, 0) =~= rows_v(out@) + merge_rows(
                    fv,
                    pv,
                    i as int,
                    j + 1,
                ));
            }
            j = j + 1;
        }
    }
    proof {
        assert(merge_rows(fv, pv, fields@.len() as int, pads@.len() as int)
            =~= Seq::<RowV>::empty());
        assert(rows_v(out0) + merge_rows(fv, pv, 0, 0) =~= rows_v(out@));
    }
}

proof fn lemma_pad_prefix(pads: Seq<PadV>, k: int)
    requires
        0 <= k <= pads.len(),
    ensures
        sum_pad_lengths(pads.take(k)) <= sum_pad_lengths(pads),
    decreases pads.len() - k,
{
    if k == pads.len() {
        assert(pads.take(k) =~= pads);
    } else {
        lemma_pad_prefix(pads, k + 1);
        assert(pads.take(k + 1).drop_last() =~= pads.take(k));
        assert(pads.take(k + 1).last() == pads[k]);
    }
}

/// Sums the padding segment lengths of a layout.
fn padding_total(pads: &Vec<PaddingSegment>) -> (r: usize)
    requires
        sum_pad_lengths(pads@.map_values(|p: PaddingSegment| p@)) <= usize::MAX,
    ensures
        r == sum_pad_lengths(pads@.map_values(|p: PaddingSegment| p@)),
{
    let ghost pv = pads@.map_values(|p: PaddingSegment| p@);
    let mut sum: usize = 0;
    let mut i: usize = 0;
    while i < pads.len()
        invariant
            i <= pads@.len(),
            pv == pads@.map_values(|p: PaddingSegment| p@),
            sum_pad_lengths(pv) <= usize::MAX,
            sum == sum_pad_lengths(pv.take(i as int)),
        decreases pads@.len() - i,
    {
        proof {
            assert(pv.take(i + 1).drop_last() =~= pv.take(i as int));
            assert(pv.take(i + 1).last() == pv[i as int]);
            lemma_pad_prefix(pv, i + 1);
        }
        sum = sum + pads[i].length;
        i = i + 1;
    }
    proof {
        assert(pv.take(pads@.len() as int) =~= pv);
    }
    sum
}

/// Renders one resolved layout: fields and padding gaps in offset order,
/// variant sections for a sum type, and the totals.
pub fn generate_report(l: &Layout) -> (r: Report)
    requires
        sum_pad_lengths(l@.padding) <= l@.size,
    ensures
        r.size == l@.size,
        r.align == l@.align,
        r.padding_bytes == sum_pad_lengths(l@.padding),
        r.used_bytes == l@.size - sum_pad_lengths(l@.padding),
        rows_v(r.rows@) == flat_rows(l@),
{
    let mut rows: Vec<ReportRow> = Vec::new();
    merge_exec(&l.fields, &l.padding, &mut rows);
    let mut vi: usize = 0;
    while vi < l.variants.len()
        invariant
            vi <= l.variants@.len(),
            rows_v(rows@) == merge_rows(l@.fields, l@.padding, 0, 0) + variant_rows(
                l@.variants.take(vi as int),
            ),
        decreases l.variants@.len() - vi,
    {
        let ghost before = rows@;
        rows.push(ReportRow::Variant { name: l.variants[vi].name.clone() });
        proof {
            assert(rows_v(rows@) =~= rows_v(before).push(
                RowV::Variant { name: l@.variants[vi as int].name },
            ));
        }
        let ghost mid = rows@;
        merge_exec(&l.variants[vi].payload.fields, &l.variants[vi].payload.padding, &mut rows);
        proof {
            assert(l@.variants.take(vi + 1).drop_last() =~= l@.variants.take(vi as int));
            assert(l@.variants.take(vi + 1).last() == l@.variants[vi as int]);
            assert(rows_v(rows@) =~= merge_rows(l@.fields, l@.padding, 0, 0) + variant_rows(
                l@.variants.take(vi + 1),
            ));
        }
        vi = vi + 1;
    }
    proof {
        assert(l@.variants.take(l.variants@.len() as int) =~= l@.variants);
        assert(rows_v(rows@) =~= flat_rows(l@));
    }
    let padding_bytes = padding_total(&l.padding);
    let used_bytes = l.size - padding_bytes;
    Report { rows, size: l.size, align: l.align, padding_bytes, used_bytes }
}

/// Renders the layout cached for `id`, if any. A `depth` greater than 0
/// appends, after the type's own rows, one expanded report section per
/// record-typed field, recursively: the field's label as a variant-style
/// heading, then the field type's rows with offsets relative to that field.
pub fn report_for(d: &Data, id: &TypePath, depth: usize) -> (r: Option<Report>)
    requires
        d.inv(),
    ensures
        r is Some <==> d.layouts().contains_key(id@),
        r matches Some(rep) ==> rep.size == d.layouts()[id@].size && rep.align
            == d.layouts()[id@].align && rep.padding_bytes == sum_pad_lengths(
            d.layouts()[id@].padding,
        ) && rep.used_bytes == d.layouts()[id@].size - sum_pad_lengths(d.layouts()[id@].padding),
        depth == 0 ==> (r matches Some(rep) ==> rows_v(rep.rows@) == flat_rows(
            d.layouts()[id@],
        )),
    decreases depth,
{
    let l = match d.get_layout(id) {
        None => {
            return None;
        },
        Some(l) => l.clone(),
    };
    proof {
        crate::catalog::lemma_inv_facts(*d, id@);
    }
    let mut rep = generate_report(&l);
    if depth == 0 {
        return Some(rep);
    }
    let fields = match d.lookup(id) {
        Some(item) => match item {
            crate::model::Item::Struct(s) => crate::model::struct_fields(s),
            _ => Vec::new(),
        },
        None => Vec::new(),
    };
    let mut i: usize = 0;
    while i < fields.len()
        invariant
            i <= fields@.len(),
            d.inv(),
            rep.size == l@.size,
            rep.align == l@.align,
            rep.padding_bytes == sum_pad_lengths(l@.padding),
            rep.used_bytes == l@.size - sum_pad_lengths(l@.padding),
            depth >= 1,
        decreases fields@.len() - i,
    {
        match report_for(d, &fields[i].1, depth - 1) {
            Some(sub) => {
                rep.rows.push(ReportRow::Variant { name: field_heading(&fields[i].0) });
                let mut sub_rows = sub.rows;
                rep.rows.append(&mut sub_rows);
            },
            None => {},
        }
        i = i + 1;
    }
    Some(rep)
}

/// The heading text of an expanded field section.
fn field_heading(label: &FieldName) -> (r: String)
    ensures
        label matches FieldName::Named(s) ==> r@ == s@,
{
    match label {
        FieldName::Named(s) => s.clone(),
        FieldName::Index(_) => String::new(),
        FieldName::Discriminant => String::new(),
    }
}

} // verus!
