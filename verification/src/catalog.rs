use vstd::prelude::*;
use crate::calc::{
    is_pow2, record_layout_v, sal_from_paths, spec_disc_max, spec_discs_consistent,
    spec_disc_width, sum_layout_v, union_layout_v,
};
use crate::model::{
    struct_field_names, struct_field_paths, FieldNameV, Item, Layout, LayoutError, LayoutV,
    SourceItem, Struct, VariantV,
};
use crate::path::{pv_push, PathV, TypePath};

verus! {

// ---------------------------------------------------------------------------
// Association lists as maps.
// ---------------------------------------------------------------------------

/// No two entries share a path.
pub open spec fn keys_unique<V>(s: Seq<(TypePath, V)>) -> bool {
    forall|i: int, j: int|
        0 <= i < j < s.len() ==> (#[trigger] s[i]).0@ != (#[trigger] s[j]).0@
}

/// The definitions held by an entry list, as a map keyed by path view.
pub open spec fn dmap(s: Seq<(TypePath, Item)>) -> Map<PathV, Item>
    decreases s.len(),
{
    if s.len() == 0 {
        Map::<PathV, Item>::empty()
    } else {
        dmap(s.drop_last()).insert(s.last().0@, s.last().1)
    }
}

/// The layouts held by an entry list, as a map keyed by path view.
pub open spec fn lmap(s: Seq<(TypePath, Layout)>) -> Map<PathV, LayoutV>
    decreases s.len(),
{
    if s.len() == 0 {
        Map::<PathV, LayoutV>::empty()
    } else {
        lmap(s.drop_last()).insert(s.last().0@, s.last().1@)
    }
}

proof fn lemma_dmap_entry(s: Seq<(TypePath, Item)>, i: int)
    requires
        keys_unique(s),
        0 <= i < s.len(),
    ensures
        dmap(s).contains_key(s[i].0@),
        dmap(s)[s[i].0@] == s[i].1,
    decreases s.len(),
{
    if i < s.len() - 1 {
        assert(keys_unique(s.drop_last()));
        assert(s.drop_last()[i] == s[i]);
        lemma_dmap_entry(s.drop_last(), i);
    }
}

proof fn lemma_dmap_absent(s: Seq<(TypePath, Item)>, k: PathV)
    requires
        forall|j: int| 0 <= j < s.len() ==> (#[trigger] s[j]).0@ != k,
    ensures
        !dmap(s).contains_key(k),
    decreases s.len(),
{
    if s.len() > 0 {
        assert(forall|j: int|
            0 <= j < s.drop_last().len() ==> (#[trigger] s.drop_last()[j]).0@ != k);
        lemma_dmap_absent(s.drop_last(), k);
    }
}

proof fn lemma_lmap_entry(s: Seq<(TypePath, Layout)>, i: int)
    requires
        keys_unique(s),
        0 <= i < s.len(),
    ensures
        lmap(s).contains_key(s[i].0@),
        lmap(s)[s[i].0@] == s[i].1@,
    decreases s.len(),
{
    if i < s.len() - 1 {
        assert(keys_unique(s.drop_last()));
        assert(s.drop_last()[i] == s[i]);
        lemma_lmap_entry(s.drop_last(), i);
    }
}

proof fn lemma_lmap_absent(s: Seq<(TypePath, Layout)>, k: PathV)
    requires
        forall|j: int| 0 <= j < s.len() ==> (#[trigger] s[j]).0@ != k,
    ensures
        !lmap(s).contains_key(k),
    decreases s.len(),
{
    if s.len() > 0 {
        assert(forall|j: int|
            0 <= j < s.drop_last().len() ==> (#[trigger] s.drop_last()[j]).0@ != k);
        lemma_lmap_absent(s.drop_last(), k);
    }
}

// ---------------------------------------------------------------------------
// Well-formedness and coherence of cached layouts.
// ---------------------------------------------------------------------------

/// A cached layout is well formed: its alignment is a positive power of
/// two, and its padding fits within its size.
pub open spec fn wf_layout_v(l: LayoutV) -> bool {
    &&& l.align >= 1
    &&& is_pow2(l.align)
    &&& crate::calc::sum_pad_lengths(l.padding) <= l.size
}

/// All referenced paths have a cached layout.
pub open spec fn deps_present(ps: Seq<PathV>, layouts: Map<PathV, LayoutV>) -> bool {
    forall|i: int| 0 <= i < ps.len() ==> layouts.contains_key(#[trigger] ps[i])
}

/// The names of a union's fields.
pub open spec fn union_names(fs: Seq<(String, TypePath)>) -> Seq<FieldNameV> {
    fs.map_values(|f: (String, TypePath)| FieldNameV::Named(f.0@))
}

/// The paths of a union's fields.
pub open spec fn union_paths(fs: Seq<(String, TypePath)>) -> Seq<PathV> {
    fs.map_values(|f: (String, TypePath)| f.1@)
}

/// A record body's layout view, given the cached layouts of its fields.
pub open spec fn record_v_of(s: Struct, layouts: Map<PathV, LayoutV>) -> crate::model::RecordLayoutV {
    record_layout_v(struct_field_names(s), sal_from_paths(struct_field_paths(s), layouts))
}

/// A record body's layout, lifted to a full layout with no variants.
pub open spec fn record_as_layout_v(r: crate::model::RecordLayoutV) -> LayoutV {
    LayoutV {
        size: r.size,
        align: r.align,
        fields: r.fields,
        padding: r.padding,
        variants: Seq::<VariantV>::empty(),
    }
}

/// The payload layouts of a sum type's variants, given cached field layouts.
pub open spec fn enum_payloads_v(
    vs: Seq<(String, Option<u64>, Struct)>,
    layouts: Map<PathV, LayoutV>,
) -> Seq<crate::model::RecordLayoutV> {
    Seq::new(vs.len(), |i: int| record_v_of(vs[i].2, layouts))
}

/// A cached layout agrees with its definition, computed from the cached
/// layouts of the types the definition directly contains.
pub open spec fn coherent_at(
    defs: Map<PathV, Item>,
    layouts: Map<PathV, LayoutV>,
    k: PathV,
) -> bool
    recommends
        defs.contains_key(k),
        layouts.contains_key(k),
{
    match defs[k] {
        Item::Struct(s) => {
            &&& deps_present(struct_field_paths(s), layouts)
            &&& layouts[k] == record_as_layout_v(record_v_of(s, layouts))
        },
        Item::TypeAlias(t) => {
            &&& layouts.contains_key(t@)
            &&& layouts[k] == layouts[t@]
        },
        Item::Union(fs) => {
            &&& deps_present(union_paths(fs@), layouts)
            &&& layouts[k] == union_layout_v(
                union_names(fs@),
                sal_from_paths(union_paths(fs@), layouts),
            )
        },
        Item::Enum(vs) => {
            &&& spec_discs_consistent(vs@)
            &&& forall|i: int|
                0 <= i < vs@.len() ==> deps_present(
                    struct_field_paths((#[trigger] vs@[i]).2),
                    layouts,
                )
            &&& layouts[k] == sum_layout_v(
                spec_disc_width(spec_disc_max(vs@)),
                vs@.map_values(|v: (String, Option<u64>, Struct)| v.0@),
                enum_payloads_v(vs@, layouts),
            )
        },
    }
}

/// Coherence survives growing the layout cache: an entry coherent with a
/// smaller cache is coherent with any extension that keeps its entries.
pub proof fn lemma_coherent_frame(
    defs: Map<PathV, Item>,
    l1: Map<PathV, LayoutV>,
    l2: Map<PathV, LayoutV>,
    k: PathV,
)
    requires
        defs.contains_key(k),
        l1.contains_key(k),
        coherent_at(defs, l1, k),
        forall|k2: PathV|
            #[trigger] l1.contains_key(k2) ==> l2.contains_key(k2) && l2[k2] == l1[k2],
    ensures
        coherent_at(defs, l2, k),
{
    match defs[k] {
        Item::Struct(s) => {
            let ps = struct_field_paths(s);
            assert forall|i: int| 0 <= i < ps.len() implies l2.contains_key(#[trigger] ps[i]) by {
                assert(l1.contains_key(ps[i]));
            }
            assert(sal_from_paths(ps, l2) =~= sal_from_paths(ps, l1));
        },
        Item::TypeAlias(t) => {},
        Item::Union(fs) => {
            let ps = union_paths(fs@);
            assert forall|i: int| 0 <= i < ps.len() implies l2.contains_key(#[trigger] ps[i]) by {
                assert(l1.contains_key(ps[i]));
            }
            assert(sal_from_paths(ps, l2) =~= sal_from_paths(ps, l1));
        },
        Item::Enum(vs) => {
            assert forall|i: int| 0 <= i < vs@.len() implies deps_present(
                struct_field_paths((#[trigger] vs@[i]).2),
                l2,
            ) && record_v_of(vs@[i].2, l2) == record_v_of(vs@[i].2, l1) by {
                let ps = struct_field_paths(vs@[i].2);
                assert(deps_present(ps, l1));
                assert forall|m: int| 0 <= m < ps.len() implies l2.contains_key(
                    #[trigger] ps[m],
                ) by {
                    assert(l1.contains_key(ps[m]));
                }
                assert(sal_from_paths(ps, l2) =~= sal_from_paths(ps, l1));
            }
            assert(enum_payloads_v(vs@, l2) =~= enum_payloads_v(vs@, l1));
        },
    }
}

// ---------------------------------------------------------------------------
// The catalog.
// ---------------------------------------------------------------------------

/// The type catalog: registered definitions, and the memoized layout cache
/// seeded with the builtin primitives.
pub struct Data {
    unprocessed_items: Vec<(TypePath, Item)>,
    processed_items: Vec<(TypePath, Layout)>,
}

impl Data {
    /// The registered definitions, keyed by path.
    pub closed spec fn defs(&self) -> Map<PathV, Item> {
        dmap(self.unprocessed_items@)
    }

    /// The resolved (and builtin) layouts, keyed by path.
    pub closed spec fn layouts(&self) -> Map<PathV, LayoutV> {
        lmap(self.processed_items@)
    }

    /// The catalog's invariant: unique keys, well-formed cached layouts,
    /// and every cached layout of a defined type coherent with its
    /// definition.
    pub closed spec fn inv(&self) -> bool {
        &&& keys_unique(self.unprocessed_items@)
        &&& keys_unique(self.processed_items@)
        &&& forall|k: PathV|
            #[trigger] self.layouts().contains_key(k) ==> wf_layout_v(self.layouts()[k])
        &&& forall|k: PathV|
            #[trigger] self.layouts().contains_key(k) && self.defs().contains_key(k)
                ==> coherent_at(self.defs(), self.layouts(), k)
    }
}

fn find_def_idx(v: &Vec<(TypePath, Item)>, id: &TypePath) -> (r: Option<usize>)
    ensures
        match r {
            Some(i) => i < v@.len() && v@[i as int].0@ == id@,
            None => forall|j: int| 0 <= j < v@.len() ==> (#[trigger] v@[j]).0@ != id@,
        },
{
    let mut i: usize = 0;
    while i < v.len()
        invariant
            i <= v.len(),
            forall|j: int| 0 <= j < i ==> (#[trigger] v@[j]).0@ != id@,
        decreases v.len() - i,
    {
        if v[i].0.path_eq(id) {
            return Some(i);
        }
        i = i + 1;
    }
    None
}

fn find_layout_idx(v: &Vec<(TypePath, Layout)>, id: &TypePath) -> (r: Option<usize>)
    ensures
        match r {
            Some(i) => i < v@.len() && v@[i as int].0@ == id@,
            None => forall|j: int| 0 <= j < v@.len() ==> (#[trigger] v@[j]).0@ != id@,
        },
{
    let mut i: usize = 0;
    while i < v.len()
        invariant
            i <= v.len(),
            forall|j: int| 0 <= j < i ==> (#[trigger] v@[j]).0@ != id@,
        decreases v.len() - i,
    {
        if v[i].0.path_eq(id) {
            return Some(i);
        }
        i = i + 1;
    }
    None
}

impl Data {
    /// Looks a definition up by path.
    pub fn lookup(&self, id: &TypePath) -> (r: Option<&Item>)
        requires
            self.inv(),
        ensures
            match r {
                Some(item) => self.defs().contains_key(id@) && *item == self.defs()[id@],
                None => !self.defs().contains_key(id@),
            },
    {
        match find_def_idx(&self.unprocessed_items, id) {
            Some(i) => {
                proof {
                    lemma_dmap_entry(self.unprocessed_items@, i as int);
                }
                Some(&self.unprocessed_items[i].1)
            },
            None => {
                proof {
                    lemma_dmap_absent(self.unprocessed_items@, id@);
                }
                None
            },
        }
    }

    /// Looks a cached layout up by path.
    pub fn get_layout(&self, id: &TypePath) -> (r: Option<&Layout>)
        requires
            self.inv(),
        ensures
            match r {
                Some(l) => self.layouts().contains_key(id@) && l@ == self.layouts()[id@],
                None => !self.layouts().contains_key(id@),
            },
    {
        match find_layout_idx(&self.processed_items, id) {
            Some(i) => {
                proof {
                    lemma_lmap_entry(self.processed_items@, i as int);
                }
                Some(&self.processed_items[i].1)
            },
            None => {
                proof {
                    lemma_lmap_absent(self.processed_items@, id@);
                }
                None
            },
        }
    }

    /// Inserts a layout known to keep the catalog coherent.
    pub(crate) fn insert_layout(&mut self, id: TypePath, layout: Layout)
        requires
            old(self).inv(),
            !old(self).layouts().contains_key(id@),
            wf_layout_v(layout@),
            old(self).defs().contains_key(id@) ==> coherent_at(
                old(self).defs(),
                old(self).layouts().insert(id@, layout@),
                id@,
            ),
        ensures
            final(self).inv(),
            final(self).defs() == old(self).defs(),
            final(self).layouts() == old(self).layouts().insert(id@, layout@),
    {
        proof {
            lemma_lmap_absent_converse(self.processed_items@, id@);
        }
        let ghost old_entries = self.processed_items@;
        let ghost idv = id@;
        let ghost lv = layout@;
        self.processed_items.push((id, layout));
        proof {
            assert(self.processed_items@.drop_last() =~= old_entries);
            assert(self.layouts() == old(self).layouts().insert(idv, lv));
            assert(keys_unique(self.processed_items@));
            assert forall|k: PathV|
                #[trigger] self.layouts().contains_key(k) && self.defs().contains_key(k)
                    implies coherent_at(self.defs(), self.layouts(), k) by {
                if k == idv {
                    assert(coherent_at(self.defs(), self.layouts(), k));
                } else {
                    assert(old(self).layouts().contains_key(k));
                    lemma_coherent_frame(self.defs(), old(self).layouts(), self.layouts(), k);
                }
            }
        }
    }

    /// Registers a builtin primitive with a fixed size and alignment.
    /// Fails when the path is already present, as a builtin or a user type.
    pub fn register_builtin(&mut self, id: TypePath, size: usize, align: usize) -> (r: Result<
        (),
        LayoutError,
    >)
        requires
            old(self).inv(),
            is_pow2(align as nat),
        ensures
            final(self).inv(),
            old(self).defs().contains_key(id@) || old(self).layouts().contains_key(id@) ==> r
                is Err && final(self).defs() == old(self).defs() && final(self).layouts() == old(
                self,
            ).layouts() && (r matches Err(e) ==> e@ == crate::model::ErrorV::Duplicate(id@)),
            !(old(self).defs().contains_key(id@) || old(self).layouts().contains_key(id@)) ==> r
                is Ok && final(self).defs() == old(self).defs() && final(self).layouts() == old(
                self,
            ).layouts().insert(id@, prim_layout_v(size as nat, align as nat)),
    {
        let taken_def = match find_def_idx(&self.unprocessed_items, &id) {
            Some(i) => {
                proof {
                    lemma_dmap_entry(self.unprocessed_items@, i as int);
                }
                true
            },
            None => {
                proof {
                    lemma_dmap_absent(self.unprocessed_items@, id@);
                }
                false
            },
        };
        let taken_layout = match find_layout_idx(&self.processed_items, &id) {
            Some(i) => {
                proof {
                    lemma_lmap_entry(self.processed_items@, i as int);
                }
                true
            },
            None => {
                proof {
                    lemma_lmap_absent(self.processed_items@, id@);
                }
                false
            },
        };
        if taken_def || taken_layout {
            return Err(LayoutError::DuplicateDefinition(id));
        }
        let layout = Layout {
            size,
            align,
            fields: Vec::new(),
            padding: Vec::new(),
            variants: Vec::new(),
        };
        proof {
            assert(layout@ =~= prim_layout_v(size as nat, align as nat));
            lemma_pow2_pos(align as nat);
        }
        self.insert_layout(id, layout);
        Ok(())
    }

    /// Registers a user type definition. Fails with `DuplicateDefinition`
    /// when the path is already present, as a builtin or a user type.
    pub fn register_type(&mut self, id: TypePath, item: Item) -> (r: Result<(), LayoutError>)
        requires
            old(self).inv(),
        ensures
            final(self).inv(),
            final(self).layouts() == old(self).layouts(),
            old(self).defs().contains_key(id@) || old(self).layouts().contains_key(id@) ==> r
                is Err && final(self).defs() == old(self).defs() && (r matches Err(e) ==> e@
                == crate::model::ErrorV::Duplicate(id@)),
            !(old(self).defs().contains_key(id@) || old(self).layouts().contains_key(id@)) ==> r
                is Ok && final(self).defs() == old(self).defs().insert(id@, item),
    {
        let taken_def = match find_def_idx(&self.unprocessed_items, &id) {
            Some(i) => {
                proof {
                    lemma_dmap_entry(self.unprocessed_items@, i as int);
                }
                true
            },
            None => {
                proof {
                    lemma_dmap_absent(self.unprocessed_items@, id@);
                }
                false
            },
        };
        let taken_layout = match find_layout_idx(&self.processed_items, &id) {
            Some(i) => {
                proof {
                    lemma_lmap_entry(self.processed_items@, i as int);
                }
                true
            },
            None => {
                proof {
                    lemma_lmap_absent(self.processed_items@, id@);
                }
                false
            },
        };
        if taken_def || taken_layout {
            return Err(LayoutError::DuplicateDefinition(id));
        }
        proof {
            lemma_dmap_absent_converse(self.unprocessed_items@, id@);
        }
        let ghost old_entries = self.unprocessed_items@;
        let ghost idv = id@;
        self.unprocessed_items.push((id, item));
        proof {
            assert(self.unprocessed_items@.drop_last() =~= old_entries);
            assert(self.defs() == old(self).defs().insert(idv, self.unprocessed_items@.last().1));
            assert(self.layouts() == old(self).layouts());
            assert(keys_unique(self.unprocessed_items@));
            assert forall|k: PathV|
                #[trigger] self.layouts().contains_key(k) && self.defs().contains_key(k)
                    implies coherent_at(self.defs(), self.layouts(), k) by {
                assert(k != idv);
                assert(old(self).layouts().contains_key(k));
                assert(old(self).defs().contains_key(k));
                assert(coherent_at(old(self).defs(), old(self).layouts(), k));
                assert(self.defs()[k] == old(self).defs()[k]);
                lemma_coherent_same_def(old(self).defs(), self.defs(), old(self).layouts(), k);
            }
        }
        Ok(())
    }

    /// Caches a layout for a path that has no registered definition: an
    /// opaque or indirection type whose layout is known from outside.
    /// Fails with `DuplicateDefinition` when the path is already present.
    pub fn cache_layout(&mut self, id: TypePath, layout: Layout) -> (r: Result<(), LayoutError>)
        requires
            old(self).inv(),
            wf_layout_v(layout@),
        ensures
            final(self).inv(),
            final(self).defs() == old(self).defs(),
            old(self).defs().contains_key(id@) || old(self).layouts().contains_key(id@) ==> r
                is Err && final(self).layouts() == old(self).layouts() && (r matches Err(e) ==> e@
                == crate::model::ErrorV::Duplicate(id@)),
            !(old(self).defs().contains_key(id@) || old(self).layouts().contains_key(id@)) ==> r
                is Ok && final(self).layouts() == old(self).layouts().insert(id@, layout@),
    {
        let taken_def = match find_def_idx(&self.unprocessed_items, &id) {
            Some(i) => {
                proof {
                    lemma_dmap_entry(self.unprocessed_items@, i as int);
                }
                true
            },
            None => {
                proof {
                    lemma_dmap_absent(self.unprocessed_items@, id@);
                }
                false
            },
        };
        let taken_layout = match find_layout_idx(&self.processed_items, &id) {
            Some(i) => {
                proof {
                    lemma_lmap_entry(self.processed_items@, i as int);
                }
                true
            },
            None => {
                proof {
                    lemma_lmap_absent(self.processed_items@, id@);
                }
                false
            },
        };
        if taken_def || taken_layout {
            return Err(LayoutError::DuplicateDefinition(id));
        }
        self.insert_layout(id, layout);
        Ok(())
    }
}

proof fn lemma_dmap_absent_converse(s: Seq<(TypePath, Item)>, k: PathV)
    requires
        !dmap(s).contains_key(k),
    ensures
        forall|j: int| 0 <= j < s.len() ==> (#[trigger] s[j]).0@ != k,
    decreases s.len(),
{
    if s.len() > 0 {
        lemma_dmap_absent_converse(s.drop_last(), k);
        assert(forall|j: int| 0 <= j < s.len() - 1 ==> s[j] == s.drop_last()[j]);
    }
}

proof fn lemma_lmap_absent_converse(s: Seq<(TypePath, Layout)>, k: PathV)
    requires
        !lmap(s).contains_key(k),
    ensures
        forall|j: int| 0 <= j < s.len() ==> (#[trigger] s[j]).0@ != k,
    decreases s.len(),
{
    if s.len() > 0 {
        lemma_lmap_absent_converse(s.drop_last(), k);
        assert(forall|j: int| 0 <= j < s.len() - 1 ==> s[j] == s.drop_last()[j]);
    }
}

/// What the catalog invariant gives for one cached entry: the layout is
/// well formed, and coherent with the entry's definition when it has one.
pub proof fn lemma_inv_facts(d: Data, k: PathV)
    requires
        d.inv(),
        d.layouts().contains_key(k),
    ensures
        wf_layout_v(d.layouts()[k]),
        d.defs().contains_key(k) ==> coherent_at(d.defs(), d.layouts(), k),
{
}

/// Coherence depends on the definition map only through the entry at `k`.
pub proof fn lemma_coherent_same_def(
    d1: Map<PathV, Item>,
    d2: Map<PathV, Item>,
    layouts: Map<PathV, LayoutV>,
    k: PathV,
)
    requires
        d1.contains_key(k),
        d2.contains_key(k),
        d1[k] == d2[k],
        coherent_at(d1, layouts, k),
    ensures
        coherent_at(d2, layouts, k),
{
}

/// The layout of a builtin primitive: no fields, no padding, no variants.
pub open spec fn prim_layout_v(size: nat, align: nat) -> LayoutV {
    LayoutV {
        size: size,
        align: align,
        fields: Seq::<crate::model::FieldLayoutV>::empty(),
        padding: Seq::<crate::model::PadV>::empty(),
        variants: Seq::<VariantV>::empty(),
    }
}

/// A power of two is positive.
pub proof fn lemma_pow2_pos(n: nat)
    requires
        is_pow2(n),
    ensures
        n >= 1,
{
}

// ---------------------------------------------------------------------------
// Builtin primitives.
// ---------------------------------------------------------------------------

/// A one-segment, non-rooted path: how builtins are named.
pub open spec fn bpath(s: Seq<char>) -> PathV {
    PathV { absolute: false, segments: seq![s] }
}

/// The seeded builtin table for an 8-byte pointer width: the fixed-width
/// and pointer-sized integers, each with alignment equal to its size.
pub open spec fn builtins_map() -> Map<PathV, LayoutV> {
    Map::<PathV, LayoutV>::empty().insert(bpath("u8"@), prim_layout_v(1, 1)).insert(
        bpath("u16"@),
        prim_layout_v(2, 2),
    ).insert(bpath("u32"@), prim_layout_v(4, 4)).insert(bpath("u64"@), prim_layout_v(8, 8)).insert(
        bpath("u128"@),
        prim_layout_v(16, 16),
    ).insert(bpath("usize"@), prim_layout_v(8, 8)).insert(
        bpath("i8"@),
        prim_layout_v(1, 1),
    ).insert(bpath("i16"@), prim_layout_v(2, 2)).insert(bpath("i32"@), prim_layout_v(4, 4)).insert(
        bpath("i64"@),
        prim_layout_v(8, 8),
    ).insert(bpath("i128"@), prim_layout_v(16, 16)).insert(bpath("isize"@), prim_layout_v(8, 8))
}

/// Builds the one-segment path of a builtin.
fn builtin_path(name: &str) -> (r: TypePath)
    ensures
        r@ == bpath(name@),
{
    let mut p = TypePath::new();
    p.push(name.to_owned());
    proof {
        assert(p@.segments =~= seq![name@]);
        assert(p@ =~= bpath(name@));
    }
    p
}

impl Data {
    /// A fresh catalog, seeded with the builtin primitives of an
    /// 8-byte-pointer target.
    pub fn new() -> (r: Self)
        ensures
            r.inv(),
            r.defs() == Map::<PathV, Item>::empty(),
            r.layouts() == builtins_map(),
    {
        let mut data = Data { unprocessed_items: Vec::new(), processed_items: Vec::new() };
        proof {
            assert(data.unprocessed_items@ =~= Seq::<(TypePath, Item)>::empty());
            assert(data.processed_items@ =~= Seq::<(TypePath, Layout)>::empty());
            assert(data.defs() =~= Map::<PathV, Item>::empty());
            assert(data.layouts() =~= Map::<PathV, LayoutV>::empty());
        }
        data.add_builtins();
        data
    }

    /// Seeds the builtin primitive layouts into an empty catalog.
    pub fn add_builtins(&mut self)
        requires
            old(self).inv(),
            old(self).defs() == Map::<PathV, Item>::empty(),
            old(self).layouts() == Map::<PathV, LayoutV>::empty(),
        ensures
            final(self).inv(),
            final(self).defs() == Map::<PathV, Item>::empty(),
            final(self).layouts() == builtins_map(),
    {
        proof {
            crate::calc::lemma_small_pow2();
            reveal_strlit("u8");
            reveal_strlit("u16");
            reveal_strlit("u32");
            reveal_strlit("u64");
            reveal_strlit("u128");
            reveal_strlit("usize");
            reveal_strlit("i8");
            reveal_strlit("i16");
            reveal_strlit("i32");
            reveal_strlit("i64");
            reveal_strlit("i128");
            reveal_strlit("isize");
            assert(bpath("u8"@).segments[0] == "u8"@);
            assert(bpath("u16"@).segments[0] == "u16"@);
            assert(bpath("u32"@).segments[0] == "u32"@);
            assert(bpath("u64"@).segments[0] == "u64"@);
            assert(bpath("u128"@).segments[0] == "u128"@);
            assert(bpath("usize"@).segments[0] == "usize"@);
            assert(bpath("i8"@).segments[0] == "i8"@);
            assert(bpath("i16"@).segments[0] == "i16"@);
            assert(bpath("i32"@).segments[0] == "i32"@);
            assert(bpath("i64"@).segments[0] == "i64"@);
            assert(bpath("i128"@).segments[0] == "i128"@);
            assert(bpath("isize"@).segments[0] == "isize"@);
        }
        proof {
            assert("u8"@.len() == 2 && "u8"@[0] == 'u' && "u8"@[1] == '8');
            assert("i8"@.len() == 2 && "i8"@[0] == 'i' && "i8"@[1] == '8');
            assert("u16"@.len() == 3 && "u16"@[0] == 'u' && "u16"@[1] == '1');
            assert("u32"@.len() == 3 && "u32"@[0] == 'u' && "u32"@[1] == '3');
            assert("u64"@.len() == 3 && "u64"@[0] == 'u' && "u64"@[1] == '6');
            assert("i16"@.len() == 3 && "i16"@[0] == 'i' && "i16"@[1] == '1');
            assert("i32"@.len() == 3 && "i32"@[0] == 'i' && "i32"@[1] == '3');
            assert("i64"@.len() == 3 && "i64"@[0] == 'i' && "i64"@[1] == '6');
            assert("u128"@.len() == 4 && "u128"@[0] == 'u');
            assert("i128"@.len() == 4 && "i128"@[0] == 'i');
            assert("usize"@.len() == 5 && "usize"@[0] == 'u');
            assert("isize"@.len() == 5 && "isize"@[0] == 'i');
        }
        let _ = self.register_builtin(builtin_path("u8"), 1, 1);
        let _ = self.register_builtin(builtin_path("u16"), 2, 2);
        let _ = self.register_builtin(builtin_path("u32"), 4, 4);
        let _ = self.register_builtin(builtin_path("u64"), 8, 8);
        let _ = self.register_builtin(builtin_path("u128"), 16, 16);
        let _ = self.register_builtin(builtin_path("usize"), 8, 8);
        let _ = self.register_builtin(builtin_path("i8"), 1, 1);
        let _ = self.register_builtin(builtin_path("i16"), 2, 2);
        let _ = self.register_builtin(builtin_path("i32"), 4, 4);
        let _ = self.register_builtin(builtin_path("i64"), 8, 8);
        let _ = self.register_builtin(builtin_path("i128"), 16, 16);
        let _ = self.register_builtin(builtin_path("isize"), 8, 8);
    }
}

// ---------------------------------------------------------------------------
// Registering a declaration tree.
// ---------------------------------------------------------------------------

/// One registration step on a leaf declaration.
pub open spec fn spec_add_leaf(
    defs: Map<PathV, Item>,
    taken: Set<PathV>,
    child: PathV,
    item: Item,
) -> (Map<PathV, Item>, Option<crate::model::ErrorV>) {
    if defs.contains_key(child) || taken.contains(child) {
        (defs, Some(crate::model::ErrorV::Duplicate(child)))
    } else {
        (defs.insert(child, item), None)
    }
}

/// What registering one declaration does to the definition map: the map
/// afterwards, and the error if one stops the walk.
pub open spec fn spec_add_item(
    defs: Map<PathV, Item>,
    taken: Set<PathV>,
    parent: PathV,
    item: SourceItem,
) -> (Map<PathV, Item>, Option<crate::model::ErrorV>)
    decreases item,
{
    match item {
        SourceItem::Mod(name, subs) => spec_add_items(defs, taken, pv_push(parent, name@), subs@),
        SourceItem::Struct(name, s) => spec_add_leaf(
            defs,
            taken,
            pv_push(parent, name@),
            Item::Struct(s),
        ),
        SourceItem::Enum(name, vs) => spec_add_leaf(
            defs,
            taken,
            pv_push(parent, name@),
            Item::Enum(vs),
        ),
        SourceItem::Union(name, fs) => spec_add_leaf(
            defs,
            taken,
            pv_push(parent, name@),
            Item::Union(fs),
        ),
        SourceItem::TypeAlias(name, t) => spec_add_leaf(
            defs,
            taken,
            pv_push(parent, name@),
            Item::TypeAlias(t),
        ),
        SourceItem::Unsupported(name) => (
            defs,
            Some(crate::model::ErrorV::Unsupported(pv_push(parent, name@))),
        ),
    }
}

/// Registering a list of declarations in order, stopping at the first
/// error.
pub open spec fn spec_add_items(
    defs: Map<PathV, Item>,
    taken: Set<PathV>,
    path: PathV,
    items: Seq<SourceItem>,
) -> (Map<PathV, Item>, Option<crate::model::ErrorV>)
    decreases items,
{
    if items.len() == 0 {
        (defs, None)
    } else {
        let first = spec_add_item(defs, taken, path, items[0]);
        if first.1 is Some {
            first
        } else {
            spec_add_items(first.0, taken, path, items.skip(1))
        }
    }
}

impl Data {
    fn register_leaf(&mut self, id: TypePath, item: Item) -> (r: Result<(), LayoutError>)
        requires
            old(self).inv(),
        ensures
            final(self).inv(),
            final(self).layouts() == old(self).layouts(),
            ({
                let step = spec_add_leaf(
                    old(self).defs(),
                    old(self).layouts().dom(),
                    id@,
                    item,
                );
                &&& final(self).defs() == step.0
                &&& (match r {
                    Ok(()) => step.1 is None,
                    Err(e) => step.1 == Some(e@),
                })
            }),
    {
        self.register_type(id, item)
    }

    /// Registers one declaration: a module is walked recursively under its
    /// qualified path, a representable leaf is registered under parent
    /// path plus name, and anything else is refused as unsupported.
    pub fn add_item(&mut self, parent_path: TypePath, item: SourceItem) -> (r: Result<
        (),
        LayoutError,
    >)
        requires
            old(self).inv(),
        ensures
            final(self).inv(),
            final(self).layouts() == old(self).layouts(),
            ({
                let step = spec_add_item(
                    old(self).defs(),
                    old(self).layouts().dom(),
                    parent_path@,
                    item,
                );
                &&& final(self).defs() == step.0
                &&& (match r {
                    Ok(()) => step.1 is None,
                    Err(e) => step.1 == Some(e@),
                })
            }),
        decreases item,
    {
        match item {
            SourceItem::Mod(name, subs) => {
                let mut path = parent_path;
                path.push(name);
                self.add_items(&path, subs)
            },
            SourceItem::Struct(name, s) => {
                let mut path = parent_path;
                path.push(name);
                self.register_leaf(path, Item::Struct(s))
            },
            SourceItem::Enum(name, vs) => {
                let mut path = parent_path;
                path.push(name);
                self.register_leaf(path, Item::Enum(vs))
            },
            SourceItem::Union(name, fs) => {
                let mut path = parent_path;
                path.push(name);
                self.register_leaf(path, Item::Union(fs))
            },
            SourceItem::TypeAlias(name, t) => {
                let mut path = parent_path;
                path.push(name);
                self.register_leaf(path, Item::TypeAlias(t))
            },
            SourceItem::Unsupported(name) => {
                let mut path = parent_path;
                path.push(name);
                Err(LayoutError::UnsupportedItemKind(path))
            },
        }
    }

    fn add_items(&mut self, path: &TypePath, items: Vec<SourceItem>) -> (r: Result<
        (),
        LayoutError,
    >)
        requires
            old(self).inv(),
        ensures
            final(self).inv(),
            final(self).layouts() == old(self).layouts(),
            ({
                let step = spec_add_items(
                    old(self).defs(),
                    old(self).layouts().dom(),
                    path@,
                    items@,
                );
                &&& final(self).defs() == step.0
                &&& (match r {
                    Ok(()) => step.1 is None,
                    Err(e) => step.1 == Some(e@),
                })
            }),
        decreases items@,
    {
        let mut items = items;
        if items.len() == 0 {
            return Ok(());
        }
        let ghost orig = items@;
        let first = items.remove(0);
        proof {
            assert(items@ =~= orig.skip(1));
        }
        match self.add_item(path.clone(), first) {
            Err(e) => Err(e),
            Ok(()) => self.add_items(path, items),
        }
    }
}

} // verus!
