use vstd::prelude::*;
use crate::calc::{
    aligns_pos, lemma_record_coverage, lemma_record_offsets_aligned, lemma_record_size_aligned,
    lemma_sum_laws, lemma_union_laws, sal_from_paths, spec_disc_max, spec_disc_width,
    spec_rec_align, spec_round_up, spec_union_msize, sum_field_sizes, sum_pad_lengths,
};
use crate::catalog::{coherent_at, lemma_inv_facts, union_paths, wf_layout_v, Data};
use crate::model::{struct_field_names, struct_field_paths, Item};
use crate::path::PathV;

verus! {

// The laws of the resolved catalog: what holds of every layout the engine
// has cached for a defined type, stated over the catalog itself.

proof fn lemma_deps_aligns_pos(d: Data, ps: Seq<PathV>)
    requires
        d.inv(),
        forall|i: int| 0 <= i < ps.len() ==> d.layouts().contains_key(#[trigger] ps[i]),
    ensures
        aligns_pos(sal_from_paths(ps, d.layouts())),
{
    let fs = sal_from_paths(ps, d.layouts());
    assert forall|i: int| 0 <= i < fs.len() implies (#[trigger] fs[i]).1 >= 1 by {
        lemma_inv_facts(d, ps[i]);
        assert(wf_layout_v(d.layouts()[ps[i]]));
    }
}

/// For every resolved record layout, the sum of all field sizes plus all
/// padding segment lengths equals the record's size.
pub proof fn lemma_resolved_record_coverage(d: Data, k: PathV)
    requires
        d.inv(),
        d.layouts().contains_key(k),
        d.defs().contains_key(k),
        d.defs()[k] is Struct,
    ensures
        sum_field_sizes(d.layouts()[k].fields) + sum_pad_lengths(d.layouts()[k].padding)
            == d.layouts()[k].size,
{
    lemma_inv_facts(d, k);
    match d.defs()[k] {
        Item::Struct(s) => {
            let ps = struct_field_paths(s);
            let fs = sal_from_paths(ps, d.layouts());
            lemma_deps_aligns_pos(d, ps);
            lemma_record_coverage(struct_field_names(s), fs);
        },
        _ => {},
    }
}

/// For every field of a resolved composite layout, the field's offset is a
/// multiple of the field's own alignment.
pub proof fn lemma_resolved_offsets_aligned(d: Data, k: PathV, i: int)
    requires
        d.inv(),
        d.layouts().contains_key(k),
        d.defs().contains_key(k),
        !(d.defs()[k] is TypeAlias),
        0 <= i < d.layouts()[k].fields.len(),
    ensures
        d.layouts()[k].fields[i].offset % d.layouts()[k].fields[i].align == 0,
{
    lemma_inv_facts(d, k);
    match d.defs()[k] {
        Item::Struct(s) => {
            let ps = struct_field_paths(s);
            let fs = sal_from_paths(ps, d.layouts());
            lemma_deps_aligns_pos(d, ps);
            lemma_record_offsets_aligned(struct_field_names(s), fs, i);
            assert(d.layouts()[k].fields == crate::calc::record_layout_v(
                struct_field_names(s),
                fs,
            ).fields);
            assert(d.layouts()[k].fields[i].offset % d.layouts()[k].fields[i].align == 0);
        },
        Item::Union(ufs) => {
            let ps = union_paths(ufs@);
            let fs = sal_from_paths(ps, d.layouts());
            lemma_deps_aligns_pos(d, ps);
            assert(d.layouts()[k].fields[i].offset == 0);
            assert(d.layouts()[k].fields[i].align == fs[i].1);
            assert(fs[i].1 >= 1);
            assert(d.layouts()[k].fields[i].offset % d.layouts()[k].fields[i].align == 0);
        },
        Item::Enum(vs) => {
            assert(i == 0);
            assert(d.layouts()[k].fields[0].offset == 0);
            assert(d.layouts()[k].fields[0].align == spec_disc_width(spec_disc_max(vs@)));
            assert(spec_disc_width(spec_disc_max(vs@)) >= 1);
        },
        Item::TypeAlias(_) => {},
    }
}

/// Every resolved composite layout's size is a multiple of its alignment.
pub proof fn lemma_resolved_size_aligned(d: Data, k: PathV)
    requires
        d.inv(),
        d.layouts().contains_key(k),
        d.defs().contains_key(k),
        !(d.defs()[k] is TypeAlias),
    ensures
        d.layouts()[k].size % d.layouts()[k].align == 0,
{
    lemma_inv_facts(d, k);
    match d.defs()[k] {
        Item::Struct(s) => {
            let ps = struct_field_paths(s);
            lemma_deps_aligns_pos(d, ps);
            lemma_record_size_aligned(sal_from_paths(ps, d.layouts()));
        },
        Item::Union(ufs) => {
            let ps = union_paths(ufs@);
            lemma_deps_aligns_pos(d, ps);
            lemma_union_laws(
                crate::catalog::union_names(ufs@),
                sal_from_paths(ps, d.layouts()),
            );
        },
        Item::Enum(vs) => {
            let w = spec_disc_width(spec_disc_max(vs@));
            lemma_sum_laws(
                w,
                vs@.map_values(|v: (String, Option<u64>, crate::model::Struct)| v.0@),
                crate::catalog::enum_payloads_v(vs@, d.layouts()),
            );
        },
        Item::TypeAlias(_) => {},
    }
}

/// A resolved raw union layout places every field at offset 0, and its size
/// is the largest field size rounded up to the union's alignment.
pub proof fn lemma_resolved_union(d: Data, k: PathV)
    requires
        d.inv(),
        d.layouts().contains_key(k),
        d.defs().contains_key(k),
        d.defs()[k] is Union,
    ensures
        forall|i: int|
            0 <= i < d.layouts()[k].fields.len() ==> d.layouts()[k].fields[i].offset == 0,
        d.defs()[k] matches Item::Union(ufs) ==> d.layouts()[k].size == spec_round_up(
            spec_union_msize(sal_from_paths(union_paths(ufs@), d.layouts())),
            spec_rec_align(sal_from_paths(union_paths(ufs@), d.layouts())),
        ),
{
    lemma_inv_facts(d, k);
    match d.defs()[k] {
        Item::Union(ufs) => {
            let ps = union_paths(ufs@);
            lemma_deps_aligns_pos(d, ps);
            lemma_union_laws(
                crate::catalog::union_names(ufs@),
                sal_from_paths(ps, d.layouts()),
            );
        },
        _ => {},
    }
}

} // verus!
