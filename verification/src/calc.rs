use vstd::prelude::*;
use crate::model::{
    FieldLayout, FieldLayoutV, FieldName, FieldNameV, Layout, LayoutV, PadV, PaddingSegment,
    RecordLayout, RecordLayoutV, VariantLayout, VariantV,
};

verus! {

// ---------------------------------------------------------------------------
// Alignment arithmetic.
// ---------------------------------------------------------------------------

/// The least multiple of `align` that is at least `x`.
pub open spec fn spec_round_up(x: nat, align: nat) -> nat
    recommends
        align >= 1,
{
    if x % align == 0 {
        x
    } else {
        (x + align - x % align) as nat
    }
}

/// The larger of two naturals.
pub open spec fn max_nat(a: nat, b: nat) -> nat {
    if a >= b {
        a
    } else {
        b
    }
}

/// Whether `n` is a power of two.
pub open spec fn is_pow2(n: nat) -> bool
    decreases n,
{
    if n == 0 {
        false
    } else if n == 1 {
        true
    } else {
        n % 2 == 0 && is_pow2(n / 2)
    }
}

/// Rounding up lands on a multiple of `align` that is at least `x`
/// and less than `x + align`.
pub proof fn lemma_round_up_properties(x: nat, align: nat)
    requires
        align >= 1,
    ensures
        spec_round_up(x, align) % align == 0,
        x <= spec_round_up(x, align) < x + align,
{
    let r = spec_round_up(x, align);
    if x % align != 0 {
        assert(r % align == 0) by {
            vstd::arithmetic::div_mod::lemma_mod_bound(x as int, align as int);
            assert(x == align * (x / align) + x % align) by {
                vstd::arithmetic::div_mod::lemma_fundamental_div_mod(x as int, align as int);
            }
            assert(r == align * (x / align) + align);
            assert(r == align * (x / align + 1)) by {
                vstd::arithmetic::mul::lemma_mul_is_distributive_add(
                    align as int,
                    x as int / align as int,
                    1,
                );
            }
            vstd::arithmetic::div_mod::lemma_mod_multiples_basic(
                x as int / align as int + 1,
                align as int,
            );
        }
        assert(0 <= x % align < align) by {
            vstd::arithmetic::div_mod::lemma_mod_bound(x as int, align as int);
        }
    }
}

/// Round `x` up to the next multiple of `align`, refusing values that do
/// not fit the machine word.
pub fn try_round_up(x: usize, align: usize) -> (r: Option<usize>)
    requires
        align >= 1,
    ensures
        r is Some <==> spec_round_up(x as nat, align as nat) <= usize::MAX,
        r is Some ==> r.unwrap() == spec_round_up(x as nat, align as nat),
{
    let rem: usize = x % align;
    if rem == 0 {
        Some(x)
    } else {
        let add: usize = align - rem;
        if x <= usize::MAX - add {
            Some(x + add)
        } else {
            None
        }
    }
}

// ---------------------------------------------------------------------------
// Record layout: fields in declared order, aligned by padding.
// The per-field data is a sequence of (size, align) pairs.
// ---------------------------------------------------------------------------

/// Bytes used once the first `k` fields are placed.
pub open spec fn spec_rec_cursor(fs: Seq<(nat, nat)>, k: int) -> nat
    decreases k,
{
    if k <= 0 {
        0
    } else {
        spec_round_up(spec_rec_cursor(fs, k - 1), fs[k - 1].1) + fs[k - 1].0
    }
}

/// Byte offset of field `k`: the cursor rounded up to the field's alignment.
pub open spec fn spec_rec_offset(fs: Seq<(nat, nat)>, k: int) -> nat {
    spec_round_up(spec_rec_cursor(fs, k), fs[k].1)
}

/// A record's alignment: the maximum field alignment, at least 1.
pub open spec fn spec_rec_align(fs: Seq<(nat, nat)>) -> nat
    decreases fs.len(),
{
    if fs.len() == 0 {
        1
    } else {
        max_nat(spec_rec_align(fs.drop_last()), fs.last().1)
    }
}

/// A record's size: the end of the last field rounded up to the record's
/// alignment.
pub open spec fn spec_rec_size(fs: Seq<(nat, nat)>) -> nat {
    spec_round_up(spec_rec_cursor(fs, fs.len() as int), spec_rec_align(fs))
}

/// The padding gaps in front of the first `k` fields.
pub open spec fn spec_rec_pads_upto(fs: Seq<(nat, nat)>, k: int) -> Seq<PadV>
    decreases k,
{
    if k <= 0 {
        Seq::<PadV>::empty()
    } else {
        let prev = spec_rec_pads_upto(fs, k - 1);
        let c = spec_rec_cursor(fs, k - 1);
        let o = spec_rec_offset(fs, k - 1);
        if o > c {
            prev.push(PadV { offset: c, length: (o - c) as nat })
        } else {
            prev
        }
    }
}

/// All padding of a record: the inter-field gaps plus the trailing gap.
pub open spec fn spec_rec_padding(fs: Seq<(nat, nat)>) -> Seq<PadV> {
    let base = spec_rec_pads_upto(fs, fs.len() as int);
    let c = spec_rec_cursor(fs, fs.len() as int);
    let s = spec_rec_size(fs);
    if s > c {
        base.push(PadV { offset: c, length: (s - c) as nat })
    } else {
        base
    }
}

/// The complete record layout determined by field labels and (size, align)
/// pairs, in declared order.
pub open spec fn record_layout_v(names: Seq<FieldNameV>, fs: Seq<(nat, nat)>) -> RecordLayoutV
    recommends
        names.len() == fs.len(),
{
    RecordLayoutV {
        size: spec_rec_size(fs),
        align: spec_rec_align(fs),
        fields: Seq::new(
            fs.len(),
            |i: int|
                FieldLayoutV {
                    identifier: names[i],
                    offset: spec_rec_offset(fs, i),
                    size: fs[i].0,
                    align: fs[i].1,
                },
        ),
        padding: spec_rec_padding(fs),
    }
}

/// The (size, align) pairs of a labelled field list.
pub open spec fn sal(fields: Seq<(FieldNameV, nat, nat)>) -> Seq<(nat, nat)> {
    fields.map_values(|f: (FieldNameV, nat, nat)| (f.1, f.2))
}

/// All field alignments are at least 1.
pub open spec fn aligns_pos(fs: Seq<(nat, nat)>) -> bool {
    forall|i: int| 0 <= i < fs.len() ==> (#[trigger] fs[i]).1 >= 1
}

/// The cursor never moves backwards.
pub proof fn lemma_cursor_monotone(fs: Seq<(nat, nat)>, k1: int, k2: int)
    requires
        aligns_pos(fs),
        0 <= k1 <= k2 <= fs.len(),
    ensures
        spec_rec_cursor(fs, k1) <= spec_rec_cursor(fs, k2),
    decreases k2,
{
    if k1 < k2 {
        lemma_cursor_monotone(fs, k1, k2 - 1);
        lemma_round_up_properties(spec_rec_cursor(fs, k2 - 1), fs[k2 - 1].1);
    }
}

/// Every intermediate cursor and offset stays within the record's size.
pub proof fn lemma_rec_bounds(fs: Seq<(nat, nat)>, k: int)
    requires
        aligns_pos(fs),
        0 <= k <= fs.len(),
    ensures
        spec_rec_cursor(fs, k) <= spec_rec_size(fs),
        k < fs.len() ==> spec_rec_offset(fs, k) + fs[k].0 <= spec_rec_size(fs),
{
    lemma_cursor_monotone(fs, k, fs.len() as int);
    assert(spec_rec_align(fs) >= 1) by {
        lemma_rec_align_pos(fs);
    }
    lemma_round_up_properties(spec_rec_cursor(fs, fs.len() as int), spec_rec_align(fs));
    if k < fs.len() {
        assert(spec_rec_cursor(fs, k + 1) == spec_rec_offset(fs, k) + fs[k].0);
        lemma_cursor_monotone(fs, k + 1, fs.len() as int);
    }
}

/// A record's alignment is at least 1.
pub proof fn lemma_rec_align_pos(fs: Seq<(nat, nat)>)
    ensures
        spec_rec_align(fs) >= 1,
    decreases fs.len(),
{
    if fs.len() > 0 {
        lemma_rec_align_pos(fs.drop_last());
    }
}

/// The maximum of field alignments is a power of two when every field
/// alignment is one.
pub proof fn lemma_rec_align_pow2(fs: Seq<(nat, nat)>)
    requires
        forall|i: int| 0 <= i < fs.len() ==> is_pow2((#[trigger] fs[i]).1),
    ensures
        is_pow2(spec_rec_align(fs)),
    decreases fs.len(),
{
    if fs.len() == 0 {
    } else {
        assert(forall|i: int|
            0 <= i < fs.drop_last().len() ==> is_pow2((#[trigger] fs.drop_last()[i]).1));
        lemma_rec_align_pow2(fs.drop_last());
    }
}

// ---------------------------------------------------------------------------
// Raw union layout: every field at offset 0.
// ---------------------------------------------------------------------------

/// The largest field size of a union, 0 when it has no fields.
pub open spec fn spec_union_msize(fs: Seq<(nat, nat)>) -> nat
    decreases fs.len(),
{
    if fs.len() == 0 {
        0
    } else {
        max_nat(spec_union_msize(fs.drop_last()), fs.last().0)
    }
}

/// A union's size: the largest field size rounded up to the union's
/// alignment.
pub open spec fn spec_union_size(fs: Seq<(nat, nat)>) -> nat {
    spec_round_up(spec_union_msize(fs), spec_rec_align(fs))
}

/// The complete union layout: overlapping fields at offset 0, with one
/// trailing padding gap past the largest field when the rounding leaves one.
pub open spec fn union_layout_v(names: Seq<FieldNameV>, fs: Seq<(nat, nat)>) -> LayoutV
    recommends
        names.len() == fs.len(),
{
    LayoutV {
        size: spec_union_size(fs),
        align: spec_rec_align(fs),
        fields: Seq::new(
            fs.len(),
            |i: int|
                FieldLayoutV { identifier: names[i], offset: 0, size: fs[i].0, align: fs[i].1 },
        ),
        padding: if spec_union_size(fs) > spec_union_msize(fs) {
            seq![
                PadV {
                    offset: spec_union_msize(fs),
                    length: (spec_union_size(fs) - spec_union_msize(fs)) as nat,
                },
            ]
        } else {
            Seq::<PadV>::empty()
        },
        variants: Seq::<VariantV>::empty(),
    }
}

// ---------------------------------------------------------------------------
// Sum type layout: a leading discriminant, then the shared payload area.
// ---------------------------------------------------------------------------

/// The smallest builtin unsigned width, in bytes, whose range holds
/// `max_value`. Discriminant values are 64-bit at most, so 8 bytes always
/// suffice.
pub open spec fn spec_disc_width(max_value: nat) -> nat {
    if max_value < 0x100 {
        1
    } else if max_value < 0x1_0000 {
        2
    } else if max_value < 0x1_0000_0000 {
        4
    } else {
        8
    }
}

/// The payload area's alignment: the maximum variant alignment.
pub open spec fn spec_sum_palign(vs: Seq<(nat, nat)>) -> nat {
    spec_rec_align(vs)
}

/// Where the payload area begins: the end of the discriminant rounded up
/// to the payload alignment.
pub open spec fn spec_sum_pstart(w: nat, vs: Seq<(nat, nat)>) -> nat {
    spec_round_up(w, spec_sum_palign(vs))
}

/// The end of the payload area: its start plus the largest variant size.
pub open spec fn spec_sum_end(w: nat, vs: Seq<(nat, nat)>) -> nat {
    spec_sum_pstart(w, vs) + spec_union_msize(vs)
}

/// The whole type's alignment: discriminant alignment (its own size)
/// against every variant's alignment.
pub open spec fn spec_sum_align(w: nat, vs: Seq<(nat, nat)>) -> nat {
    max_nat(w, spec_sum_palign(vs))
}

/// A sum type's size: the payload end rounded up to the overall alignment.
pub open spec fn spec_sum_size(w: nat, vs: Seq<(nat, nat)>) -> nat {
    spec_round_up(spec_sum_end(w, vs), spec_sum_align(w, vs))
}

/// The (size, align) pairs of the cached layouts at the given paths.
pub open spec fn sal_from_paths(
    ps: Seq<crate::path::PathV>,
    layouts: Map<crate::path::PathV, LayoutV>,
) -> Seq<(nat, nat)> {
    ps.map_values(|p: crate::path::PathV| (layouts[p].size, layouts[p].align))
}

/// The (size, align) pairs of laid-out variant payloads.
pub open spec fn variant_sals(pls: Seq<RecordLayoutV>) -> Seq<(nat, nat)> {
    pls.map_values(|p: RecordLayoutV| (p.size, p.align))
}

/// The complete sum-type layout: one discriminant field, the gap before the
/// payload area, the trailing gap, and every variant's payload at the shared
/// payload offset. This is the advisory, declaration-order model; it does
/// not claim to match a compiler's niche-optimized choice.
pub open spec fn sum_layout_v(w: nat, names: Seq<Seq<char>>, pls: Seq<RecordLayoutV>) -> LayoutV
    recommends
        names.len() == pls.len(),
        w >= 1,
{
    let vs = variant_sals(pls);
    let pstart = spec_sum_pstart(w, vs);
    let end = spec_sum_end(w, vs);
    let size = spec_sum_size(w, vs);
    LayoutV {
        size: size,
        align: spec_sum_align(w, vs),
        fields: seq![
            FieldLayoutV { identifier: FieldNameV::Discriminant, offset: 0, size: w, align: w },
        ],
        padding: (if pstart > w {
            seq![PadV { offset: w, length: (pstart - w) as nat }]
        } else {
            Seq::<PadV>::empty()
        }) + (if size > end {
            seq![PadV { offset: end, length: (size - end) as nat }]
        } else {
            Seq::<PadV>::empty()
        }),
        variants: Seq::new(
            pls.len(),
            |i: int| VariantV { name: names[i], offset: pstart, payload: pls[i] },
        ),
    }
}

// ---------------------------------------------------------------------------
// Executable calculators.
// ---------------------------------------------------------------------------

/// The labels of a labelled (label, size, align) field list.
pub open spec fn names_of(fields: Seq<(FieldName, usize, usize)>) -> Seq<FieldNameV> {
    fields.map_values(|f: (FieldName, usize, usize)| f.0@)
}

/// The (size, align) pairs of a labelled field list, as naturals.
pub open spec fn sal_of(fields: Seq<(FieldName, usize, usize)>) -> Seq<(nat, nat)> {
    fields.map_values(|f: (FieldName, usize, usize)| (f.1 as nat, f.2 as nat))
}

/// Lays out a record: fields in declared order, each aligned by an explicit
/// padding gap, the whole rounded up to the maximum field alignment.
/// Returns `None` exactly when the size overflows the machine word.
pub fn layout_record(fields: &Vec<(FieldName, usize, usize)>) -> (r: Option<RecordLayout>)
    requires
        forall|i: int| 0 <= i < fields@.len() ==> (#[trigger] fields@[i]).2 >= 1,
    ensures
        r is Some <==> spec_rec_size(sal_of(fields@)) <= usize::MAX,
        r is Some ==> r.unwrap()@ == record_layout_v(names_of(fields@), sal_of(fields@)),
{
    let ghost fs = sal_of(fields@);
    proof {
        assert(aligns_pos(fs));
    }
    let mut out_fields: Vec<FieldLayout> = Vec::new();
    let mut pads: Vec<PaddingSegment> = Vec::new();
    let mut cursor: usize = 0;
    let mut al: usize = 1;
    let mut i: usize = 0;
    while i < fields.len()
        invariant
            i <= fields.len(),
            fs == sal_of(fields@),
            aligns_pos(fs),
            fs.len() == fields@.len(),
            forall|j: int| 0 <= j < fields@.len() ==> (#[trigger] fields@[j]).2 >= 1,
            cursor == spec_rec_cursor(fs, i as int),
            al == spec_rec_align(fs.take(i as int)),
            al >= 1,
            out_fields@.len() == i,
            forall|j: int|
                0 <= j < i ==> (#[trigger] out_fields@[j])@ == (FieldLayoutV {
                    identifier: fields@[j].0@,
                    offset: spec_rec_offset(fs, j),
                    size: fs[j].0,
                    align: fs[j].1,
                }),
            pads@.map_values(|p: PaddingSegment| p@) == spec_rec_pads_upto(fs, i as int),
        decreases fields.len() - i,
    {
        let name = fields[i].0.clone();
        let size = fields[i].1;
        let align = fields[i].2;
        proof {
            assert(fs[i as int] == (size as nat, align as nat));
        }
        let off = match try_round_up(cursor, align) {
            Some(o) => o,
            None => {
                proof {
                    assert(spec_rec_offset(fs, i as int) > usize::MAX);
                    lemma_rec_bounds(fs, i as int);
                }
                return None;
            },
        };
        if off > cursor {
            let ghost old_pads = pads@;
            pads.push(PaddingSegment { offset: cursor, length: off - cursor });
            proof {
                assert(pads@.map_values(|p: PaddingSegment| p@) =~= old_pads.map_values(
                    |p: PaddingSegment| p@,
                ).push(PadV { offset: cursor as nat, length: (off - cursor) as nat }));
            }
        }
        out_fields.push(FieldLayout { identifier: name, offset: off, size, align });
        if size > usize::MAX - off {
            proof {
                assert(spec_rec_cursor(fs, i + 1) > usize::MAX);
                lemma_cursor_monotone(fs, i + 1, fs.len() as int);
                lemma_rec_align_pos(fs);
                lemma_round_up_properties(spec_rec_cursor(fs, fs.len() as int), spec_rec_align(fs));
            }
            return None;
        }
        cursor = off + size;
        if align > al {
            al = align;
        }
        proof {
            assert(fs.take(i + 1).drop_last() =~= fs.take(i as int));
            assert(fs.take(i + 1).last() == fs[i as int]);
        }
        i = i + 1;
    }
    proof {
        assert(fs.take(fs.len() as int) =~= fs);
    }
    let size = match try_round_up(cursor, al) {
        Some(s) => s,
        None => {
            return None;
        },
    };
    if size > cursor {
        let ghost old_pads = pads@;
        pads.push(PaddingSegment { offset: cursor, length: size - cursor });
        proof {
            assert(pads@.map_values(|p: PaddingSegment| p@) =~= old_pads.map_values(
                |p: PaddingSegment| p@,
            ).push(PadV { offset: cursor as nat, length: (size - cursor) as nat }));
        }
    }
    let r = RecordLayout { size, align: al, fields: out_fields, padding: pads };
    proof {
        assert(r@.fields =~= record_layout_v(names_of(fields@), fs).fields);
        assert(r@.padding =~= record_layout_v(names_of(fields@), fs).padding);
        assert(r@ =~= record_layout_v(names_of(fields@), fs));
    }
    Some(r)
}

/// Lays out a raw union: every field at offset 0, the size the largest
/// field size rounded up to the maximum field alignment, any rounding gap
/// as one trailing padding segment.
/// Returns `None` exactly when the size overflows the machine word.
pub fn layout_union(fields: &Vec<(FieldName, usize, usize)>) -> (r: Option<Layout>)
    requires
        forall|i: int| 0 <= i < fields@.len() ==> (#[trigger] fields@[i]).2 >= 1,
    ensures
        r is Some <==> spec_union_size(sal_of(fields@)) <= usize::MAX,
        r is Some ==> r.unwrap()@ == union_layout_v(names_of(fields@), sal_of(fields@)),
{
    let ghost fs = sal_of(fields@);
    let mut out_fields: Vec<FieldLayout> = Vec::new();
    let mut msize: usize = 0;
    let mut al: usize = 1;
    let mut i: usize = 0;
    while i < fields.len()
        invariant
            i <= fields.len(),
            fs == sal_of(fields@),
            fs.len() == fields@.len(),
            forall|j: int| 0 <= j < fields@.len() ==> (#[trigger] fields@[j]).2 >= 1,
            msize == spec_union_msize(fs.take(i as int)),
            al == spec_rec_align(fs.take(i as int)),
            al >= 1,
            out_fields@.len() == i,
            forall|j: int|
                0 <= j < i ==> (#[trigger] out_fields@[j])@ == (FieldLayoutV {
                    identifier: fields@[j].0@,
                    offset: 0,
                    size: fs[j].0,
                    align: fs[j].1,
                }),
        decreases fields.len() - i,
    {
        let name = fields[i].0.clone();
        let size = fields[i].1;
        let align = fields[i].2;
        proof {
            assert(fs[i as int] == (size as nat, align as nat));
        }
        out_fields.push(FieldLayout { identifier: name, offset: 0, size, align });
        if size > msize {
            msize = size;
        }
        if align > al {
            al = align;
        }
        proof {
            assert(fs.take(i + 1).drop_last() =~= fs.take(i as int));
            assert(fs.take(i + 1).last() == fs[i as int]);
        }
        i = i + 1;
    }
    proof {
        assert(fs.take(fs.len() as int) =~= fs);
    }
    let size = match try_round_up(msize, al) {
        Some(s) => s,
        None => {
            return None;
        },
    };
    let mut pads: Vec<PaddingSegment> = Vec::new();
    if size > msize {
        pads.push(PaddingSegment { offset: msize, length: size - msize });
    }
    let r = Layout { size, align: al, fields: out_fields, padding: pads, variants: Vec::new() };
    proof {
        assert(r@.fields =~= union_layout_v(names_of(fields@), fs).fields);
        assert(r@.padding =~= union_layout_v(names_of(fields@), fs).padding);
        assert(r@.variants =~= union_layout_v(names_of(fields@), fs).variants);
        assert(r@ =~= union_layout_v(names_of(fields@), fs));
    }
    Some(r)
}

/// The byte widths 1, 2, 4, 8 and 16 are powers of two.
pub proof fn lemma_small_pow2()
    ensures
        is_pow2(1),
        is_pow2(2),
        is_pow2(4),
        is_pow2(8),
        is_pow2(16),
{
    assert(is_pow2(1));
    assert(is_pow2(2));
    assert(is_pow2(4));
    assert(is_pow2(8));
    assert(is_pow2(16));
}

/// The smallest builtin unsigned width, in bytes, able to represent values
/// up to `max_value`.
pub fn disc_width(max_value: u64) -> (w: usize)
    ensures
        w as nat == spec_disc_width(max_value as nat),
        1 <= w <= 8,
        is_pow2(w as nat),
{
    proof {
        lemma_small_pow2();
    }
    if max_value < 0x100 {
        1
    } else if max_value < 0x1_0000 {
        2
    } else if max_value < 0x1_0000_0000 {
        4
    } else {
        8
    }
}

/// Lays out a sum type from its discriminant width and its variants'
/// already-laid-out record payloads.
/// Returns `None` exactly when the size overflows the machine word.
pub fn layout_sum(w: usize, variants: Vec<(String, RecordLayout)>) -> (r: Option<Layout>)
    requires
        1 <= w,
        forall|i: int| 0 <= i < variants@.len() ==> (#[trigger] variants@[i]).1@.align >= 1,
    ensures
        r is Some <==> spec_sum_size(
            w as nat,
            variant_sals(variants@.map_values(|v: (String, RecordLayout)| v.1@)),
        ) <= usize::MAX,
        r is Some ==> r.unwrap()@ == sum_layout_v(
            w as nat,
            variants@.map_values(|v: (String, RecordLayout)| v.0@),
            variants@.map_values(|v: (String, RecordLayout)| v.1@),
        ),
{
    let ghost pls = variants@.map_values(|v: (String, RecordLayout)| v.1@);
    let ghost vnames = variants@.map_values(|v: (String, RecordLayout)| v.0@);
    let ghost vs = variant_sals(pls);
    let mut msize: usize = 0;
    let mut pal: usize = 1;
    let mut i: usize = 0;
    while i < variants.len()
        invariant
            i <= variants.len(),
            pls == variants@.map_values(|v: (String, RecordLayout)| v.1@),
            vs == variant_sals(pls),
            vs.len() == variants@.len(),
            forall|j: int| 0 <= j < variants@.len() ==> (#[trigger] variants@[j]).1@.align >= 1,
            msize == spec_union_msize(vs.take(i as int)),
            pal == spec_rec_align(vs.take(i as int)),
            pal >= 1,
        decreases variants.len() - i,
    {
        let size = variants[i].1.size;
        let align = variants[i].1.align;
        proof {
            assert(vs[i as int] == (size as nat, align as nat));
        }
        if size > msize {
            msize = size;
        }
        if align > pal {
            pal = align;
        }
        proof {
            assert(vs.take(i + 1).drop_last() =~= vs.take(i as int));
            assert(vs.take(i + 1).last() == vs[i as int]);
        }
        i = i + 1;
    }
    proof {
        assert(vs.take(vs.len() as int) =~= vs);
    }
    let pstart = match try_round_up(w, pal) {
        Some(o) => o,
        None => {
            proof {
                lemma_round_up_properties(
                    spec_sum_end(w as nat, vs),
                    spec_sum_align(w as nat, vs),
                );
            }
            return None;
        },
    };
    if msize > usize::MAX - pstart {
        proof {
            lemma_round_up_properties(spec_sum_end(w as nat, vs), spec_sum_align(w as nat, vs));
        }
        return None;
    }
    let end = pstart + msize;
    let talign = if w > pal {
        w
    } else {
        pal
    };
    let size = match try_round_up(end, talign) {
        Some(s) => s,
        None => {
            return None;
        },
    };
    let mut pads: Vec<PaddingSegment> = Vec::new();
    if pstart > w {
        pads.push(PaddingSegment { offset: w, length: pstart - w });
    }
    if size > end {
        pads.push(PaddingSegment { offset: end, length: size - end });
    }
    let mut out_variants: Vec<VariantLayout> = Vec::new();
    let mut rest = variants;
    let ghost orig = rest@;
    let mut k: usize = 0;
    while rest.len() > 0
        invariant
            orig.len() <= usize::MAX,
            k + rest@.len() == orig.len(),
            rest@ =~= orig.skip(k as int),
            out_variants@.len() == k,
            forall|j: int|
                0 <= j < k ==> (#[trigger] out_variants@[j])@ == (VariantV {
                    name: orig[j].0@,
                    offset: pstart as nat,
                    payload: orig[j].1@,
                }),
        decreases rest.len(),
    {
        let (name, payload) = rest.remove(0);
        proof {
            assert(orig.skip(k as int)[0] == orig[k as int]);
            assert(rest@ =~= orig.skip(k as int).skip(1));
            assert(orig.skip(k as int).skip(1) =~= orig.skip(k + 1));
        }
        out_variants.push(VariantLayout { name, offset: pstart, payload });
        k = k + 1;
    }
    let mut fields: Vec<FieldLayout> = Vec::new();
    fields.push(FieldLayout { identifier: FieldName::Discriminant, offset: 0, size: w, align: w });
    let r = Layout { size, align: talign, fields, padding: pads, variants: out_variants };
    proof {
        assert(r@.fields =~= sum_layout_v(w as nat, vnames, pls).fields);
        assert(r@.padding =~= sum_layout_v(w as nat, vnames, pls).padding);
        assert(r@.variants =~= sum_layout_v(w as nat, vnames, pls).variants);
        assert(r@ =~= sum_layout_v(w as nat, vnames, pls));
    }
    Some(r)
}

// ---------------------------------------------------------------------------
// Discriminant values of a sum type's variant list.
// ---------------------------------------------------------------------------

/// Every variant carries an explicit discriminant value.
pub open spec fn all_explicit(vs: Seq<(String, Option<u64>, crate::model::Struct)>) -> bool {
    forall|i: int| 0 <= i < vs.len() ==> (#[trigger] vs[i]).1 is Some
}

/// No variant carries an explicit discriminant value.
pub open spec fn all_implicit(vs: Seq<(String, Option<u64>, crate::model::Struct)>) -> bool {
    forall|i: int| 0 <= i < vs.len() ==> (#[trigger] vs[i]).1 is None
}

/// Discriminants are consistent: all explicit, or all positional.
pub open spec fn spec_discs_consistent(vs: Seq<(String, Option<u64>, crate::model::Struct)>) -> bool {
    all_explicit(vs) || all_implicit(vs)
}

/// The largest explicit discriminant value.
pub open spec fn spec_max_explicit(vs: Seq<(String, Option<u64>, crate::model::Struct)>) -> nat
    decreases vs.len(),
{
    if vs.len() == 0 {
        0
    } else {
        max_nat(spec_max_explicit(vs.drop_last()), vs.last().1.unwrap() as nat)
    }
}

/// The top of the discriminant's value range: the largest explicit value,
/// or the last positional value (count minus one).
pub open spec fn spec_disc_max(vs: Seq<(String, Option<u64>, crate::model::Struct)>) -> nat {
    if vs.len() == 0 {
        0
    } else if all_explicit(vs) {
        spec_max_explicit(vs)
    } else {
        (vs.len() - 1) as nat
    }
}

/// Checks discriminant consistency and computes the top of the value range.
/// Returns `None` exactly when explicit and implicit values are mixed.
pub fn disc_range(variants: &Vec<(String, Option<u64>, crate::model::Struct)>) -> (r: Option<u64>)
    ensures
        r is Some <==> spec_discs_consistent(variants@),
        r is Some ==> r.unwrap() as nat == spec_disc_max(variants@),
{
    let n = variants.len();
    if n == 0 {
        return Some(0);
    }
    let explicit = match variants[0].1 {
        Some(_) => true,
        None => false,
    };
    if explicit {
        let mut maxv: u64 = 0;
        let mut i: usize = 0;
        while i < n
            invariant
                i <= n,
                n == variants@.len(),
                n > 0,
                variants@[0].1 is Some,
                forall|j: int| 0 <= j < i ==> (#[trigger] variants@[j]).1 is Some,
                maxv as nat == spec_max_explicit(variants@.take(i as int)),
            decreases n - i,
        {
            match variants[i].1 {
                Some(v) => {
                    if v > maxv {
                        maxv = v;
                    }
                },
                None => {
                    proof {
                        assert(!all_explicit(variants@));
                        assert(variants@[0].1 is Some);
                        assert(!all_implicit(variants@));
                    }
                    return None;
                },
            }
            proof {
                assert(variants@.take(i + 1).drop_last() =~= variants@.take(i as int));
                assert(variants@.take(i + 1).last() == variants@[i as int]);
            }
            i = i + 1;
        }
        proof {
            assert(variants@.take(n as int) =~= variants@);
            assert(all_explicit(variants@));
        }
        Some(maxv)
    } else {
        let mut i: usize = 0;
        while i < n
            invariant
                i <= n,
                n == variants@.len(),
                n > 0,
                variants@[0].1 is None,
                forall|j: int| 0 <= j < i ==> (#[trigger] variants@[j]).1 is None,
            decreases n - i,
        {
            let has_value = match variants[i].1 {
                Some(_) => true,
                None => false,
            };
            if has_value {
                proof {
                    assert(!all_implicit(variants@));
                    assert(!all_explicit(variants@));
                }
                return None;
            }
            i = i + 1;
        }
        proof {
            assert(all_implicit(variants@));
            assert(!all_explicit(variants@));
        }
        Some((n - 1) as u64)
    }
}

// ---------------------------------------------------------------------------
// Laws of the layout policy.
// ---------------------------------------------------------------------------

/// Total bytes covered by field rows.
pub open spec fn sum_field_sizes(fields: Seq<FieldLayoutV>) -> nat
    decreases fields.len(),
{
    if fields.len() == 0 {
        0
    } else {
        sum_field_sizes(fields.drop_last()) + fields.last().size
    }
}

/// Total bytes covered by padding gaps.
pub open spec fn sum_pad_lengths(pads: Seq<PadV>) -> nat
    decreases pads.len(),
{
    if pads.len() == 0 {
        0
    } else {
        sum_pad_lengths(pads.drop_last()) + pads.last().length
    }
}

/// Total size of the first `k` (size, align) pairs.
pub open spec fn sum_sizes_upto(fs: Seq<(nat, nat)>, k: int) -> nat
    decreases k,
{
    if k <= 0 {
        0
    } else {
        sum_sizes_upto(fs, k - 1) + fs[k - 1].0
    }
}

proof fn lemma_pad_push(pads: Seq<PadV>, p: PadV)
    ensures
        sum_pad_lengths(pads.push(p)) == sum_pad_lengths(pads) + p.length,
{
    assert(pads.push(p).drop_last() =~= pads);
    assert(pads.push(p).last() == p);
}

proof fn lemma_cursor_coverage(fs: Seq<(nat, nat)>, k: int)
    requires
        aligns_pos(fs),
        0 <= k <= fs.len(),
    ensures
        sum_sizes_upto(fs, k) + sum_pad_lengths(spec_rec_pads_upto(fs, k)) == spec_rec_cursor(
            fs,
            k,
        ),
    decreases k,
{
    if k > 0 {
        lemma_cursor_coverage(fs, k - 1);
        let c = spec_rec_cursor(fs, k - 1);
        let o = spec_rec_offset(fs, k - 1);
        lemma_round_up_properties(c, fs[k - 1].1);
        if o > c {
            lemma_pad_push(spec_rec_pads_upto(fs, k - 1), PadV { offset: c, length: (o - c) as nat });
        }
    }
}

proof fn lemma_record_fields_sum(names: Seq<FieldNameV>, fs: Seq<(nat, nat)>, k: int)
    requires
        0 <= k <= fs.len(),
    ensures
        sum_field_sizes(record_layout_v(names, fs).fields.take(k)) == sum_sizes_upto(fs, k),
    decreases k,
{
    let fields = record_layout_v(names, fs).fields;
    if k > 0 {
        lemma_record_fields_sum(names, fs, k - 1);
        assert(fields.take(k).drop_last() =~= fields.take(k - 1));
        assert(fields.take(k).last() == fields[k - 1]);
    } else {
        assert(fields.take(0) =~= Seq::<FieldLayoutV>::empty());
    }
}

/// For every record layout, the field sizes plus the padding lengths add
/// up exactly to the record's size: padding partitions the uncovered bytes.
pub proof fn lemma_record_coverage(names: Seq<FieldNameV>, fs: Seq<(nat, nat)>)
    requires
        aligns_pos(fs),
    ensures
        sum_field_sizes(record_layout_v(names, fs).fields) + sum_pad_lengths(
            record_layout_v(names, fs).padding,
        ) == record_layout_v(names, fs).size,
{
    let n = fs.len() as int;
    let fields = record_layout_v(names, fs).fields;
    lemma_cursor_coverage(fs, n);
    lemma_record_fields_sum(names, fs, n);
    assert(fields.take(n) =~= fields);
    let c = spec_rec_cursor(fs, n);
    let s = spec_rec_size(fs);
    lemma_rec_align_pos(fs);
    lemma_round_up_properties(c, spec_rec_align(fs));
    if s > c {
        lemma_pad_push(spec_rec_pads_upto(fs, n), PadV { offset: c, length: (s - c) as nat });
    }
}

/// Every field offset of a record layout is a multiple of that field's own
/// alignment.
pub proof fn lemma_record_offsets_aligned(names: Seq<FieldNameV>, fs: Seq<(nat, nat)>, k: int)
    requires
        aligns_pos(fs),
        0 <= k < fs.len(),
    ensures
        record_layout_v(names, fs).fields[k].offset % record_layout_v(names, fs).fields[k].align
            == 0,
{
    lemma_round_up_properties(spec_rec_cursor(fs, k), fs[k].1);
}

/// A record's size is a multiple of its alignment.
pub proof fn lemma_record_size_aligned(fs: Seq<(nat, nat)>)
    requires
        aligns_pos(fs),
    ensures
        spec_rec_size(fs) % spec_rec_align(fs) == 0,
{
    lemma_rec_align_pos(fs);
    lemma_round_up_properties(spec_rec_cursor(fs, fs.len() as int), spec_rec_align(fs));
}

/// A raw union's laws: every field sits at offset 0, and the size is the
/// largest field size rounded up to the union's alignment — a multiple of
/// that alignment.
pub proof fn lemma_union_laws(names: Seq<FieldNameV>, fs: Seq<(nat, nat)>)
    requires
        aligns_pos(fs),
    ensures
        forall|k: int|
            0 <= k < fs.len() ==> union_layout_v(names, fs).fields[k].offset == 0,
        union_layout_v(names, fs).size == spec_round_up(spec_union_msize(fs), spec_rec_align(fs)),
        union_layout_v(names, fs).size % union_layout_v(names, fs).align == 0,
{
    lemma_rec_align_pos(fs);
    lemma_round_up_properties(spec_union_msize(fs), spec_rec_align(fs));
}

/// A raw union's padding fits within its size.
pub proof fn lemma_union_padding_bound(names: Seq<FieldNameV>, fs: Seq<(nat, nat)>)
    ensures
        sum_pad_lengths(union_layout_v(names, fs).padding) <= union_layout_v(names, fs).size,
{
    lemma_rec_align_pos(fs);
    lemma_round_up_properties(spec_union_msize(fs), spec_rec_align(fs));
    let pad = union_layout_v(names, fs).padding;
    if pad.len() > 0 {
        assert(pad.last() == (PadV {
            offset: spec_union_msize(fs),
            length: (spec_union_size(fs) - spec_union_msize(fs)) as nat,
        }));
        assert(pad.drop_last() =~= Seq::<PadV>::empty());
        assert(sum_pad_lengths(pad.drop_last()) == 0);
        assert(sum_pad_lengths(pad) == spec_union_size(fs) - spec_union_msize(fs));
    } else {
        assert(sum_pad_lengths(pad) == 0);
    }
}

/// A sum type's padding fits within its size.
pub proof fn lemma_sum_padding_bound(w: nat, names: Seq<Seq<char>>, pls: Seq<RecordLayoutV>)
    requires
        w >= 1,
    ensures
        sum_pad_lengths(sum_layout_v(w, names, pls).padding) <= sum_layout_v(w, names, pls).size,
{
    let vs = variant_sals(pls);
    lemma_rec_align_pos(vs);
    lemma_round_up_properties(w, spec_sum_palign(vs));
    lemma_round_up_properties(spec_sum_end(w, vs), spec_sum_align(w, vs));
    let pstart = spec_sum_pstart(w, vs);
    let end = spec_sum_end(w, vs);
    let size = spec_sum_size(w, vs);
    let first = if pstart > w {
        seq![PadV { offset: w, length: (pstart - w) as nat }]
    } else {
        Seq::<PadV>::empty()
    };
    let second = if size > end {
        seq![PadV { offset: end, length: (size - end) as nat }]
    } else {
        Seq::<PadV>::empty()
    };
    let pad = first + second;
    assert(sum_layout_v(w, names, pls).padding == pad);
    assert(sum_pad_lengths(Seq::<PadV>::empty()) == 0);
    if first.len() > 0 {
        assert(first.drop_last() =~= Seq::<PadV>::empty());
        assert(first.last() == first[0]);
        assert(sum_pad_lengths(first) == pstart - w);
    } else {
        assert(sum_pad_lengths(first) == 0);
    }
    if second.len() > 0 {
        assert(pad.drop_last() =~= first);
        assert(pad.last() == second[0]);
        assert(sum_pad_lengths(pad) == sum_pad_lengths(first) + (size - end));
    } else {
        assert(pad =~= first);
        assert(sum_pad_lengths(pad) == sum_pad_lengths(first));
    }
}

/// A sum type's size is a multiple of its overall alignment, and its
/// discriminant field sits at offset 0.
pub proof fn lemma_sum_laws(w: nat, names: Seq<Seq<char>>, pls: Seq<RecordLayoutV>)
    requires
        w >= 1,
    ensures
        sum_layout_v(w, names, pls).size % sum_layout_v(w, names, pls).align == 0,
        sum_layout_v(w, names, pls).fields[0].offset == 0,
{
    let vs = variant_sals(pls);
    lemma_round_up_properties(spec_sum_end(w, vs), spec_sum_align(w, vs));
}

} // verus!
