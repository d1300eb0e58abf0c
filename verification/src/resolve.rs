use vstd::prelude::*;
use crate::calc::{
    disc_range, disc_width, layout_record, layout_sum, layout_union, lemma_rec_align_pos,
    lemma_rec_align_pow2, names_of, sal_from_paths, sal_of, spec_disc_max, spec_disc_width,
    spec_discs_consistent, spec_rec_size, spec_sum_size, spec_union_size, sum_layout_v, union_layout_v,
    variant_sals, is_pow2,
};
use crate::catalog::{
    coherent_at, deps_present, enum_payloads_v, record_as_layout_v, record_v_of, union_names,
    union_paths, wf_layout_v, Data,
};
use crate::model::{
    struct_field_names, struct_field_paths, FieldName, FieldNameV, Item, Layout, LayoutError,
    RecordLayout, Struct,
};
use crate::path::{PathV, TypePath};

verus! {

// ---------------------------------------------------------------------------
// Cycle paths.
// ---------------------------------------------------------------------------

/// Whether some in-progress path on the stack denotes `k`.
pub open spec fn stack_has(stack: Seq<TypePath>, k: PathV) -> bool {
    exists|j: int| 0 <= j < stack.len() && (#[trigger] stack[j])@ == k
}

/// The position of the first stack entry denoting `k`.
pub open spec fn first_idx(stack: Seq<TypePath>, k: PathV) -> int
    decreases stack.len(),
{
    if stack.len() == 0 {
        0
    } else if stack[0]@ == k {
        0
    } else {
        1 + first_idx(stack.skip(1), k)
    }
}

/// The reported cycle: the stack from the repeated path onward, closed by
/// the repeated path itself.
pub open spec fn cycle_of(stack: Seq<TypePath>, k: PathV) -> Seq<PathV> {
    stack.skip(first_idx(stack, k)).map_values(|p: TypePath| p@).push(k)
}

proof fn lemma_first_idx(stack: Seq<TypePath>, k: PathV, j: int)
    requires
        0 <= j < stack.len(),
        stack[j]@ == k,
        forall|m: int| 0 <= m < j ==> (#[trigger] stack[m])@ != k,
    ensures
        first_idx(stack, k) == j,
    decreases j,
{
    if j > 0 {
        assert(stack.skip(1)[j - 1] == stack[j]);
        assert(forall|m: int| 0 <= m < j - 1 ==> (#[trigger] stack.skip(1)[m])@ != k);
        lemma_first_idx(stack.skip(1), k, j - 1);
    }
}

/// When a sum type's layout is owed: consistent discriminants, every
/// variant field already cached, and the sizes within the machine word.
pub open spec fn enum_resolvable(
    vs: Seq<(String, Option<u64>, Struct)>,
    layouts: Map<PathV, crate::model::LayoutV>,
) -> bool {
    &&& spec_discs_consistent(vs)
    &&& forall|i: int|
        0 <= i < vs.len() ==> deps_present(struct_field_paths((#[trigger] vs[i]).2), layouts)
    &&& forall|i: int|
        0 <= i < vs.len() ==> spec_rec_size(
            sal_from_paths(struct_field_paths((#[trigger] vs[i]).2), layouts),
        ) <= usize::MAX
    &&& spec_sum_size(
        spec_disc_width(spec_disc_max(vs)),
        variant_sals(enum_payloads_v(vs, layouts)),
    ) <= usize::MAX
}

/// Rephrases a record body's layout under a cache extension that keeps the
/// entries the body's fields point at.
pub proof fn lemma_record_v_frame(
    s: Struct,
    l1: Map<PathV, crate::model::LayoutV>,
    l2: Map<PathV, crate::model::LayoutV>,
)
    requires
        deps_present(struct_field_paths(s), l1),
        forall|k2: PathV|
            #[trigger] l1.contains_key(k2) ==> l2.contains_key(k2) && l2[k2] == l1[k2],
    ensures
        deps_present(struct_field_paths(s), l2),
        record_v_of(s, l2) == record_v_of(s, l1),
{
    let ps = struct_field_paths(s);
    assert forall|i: int| 0 <= i < ps.len() implies l2.contains_key(#[trigger] ps[i]) by {
        assert(l1.contains_key(ps[i]));
    }
    assert(sal_from_paths(ps, l2) =~= sal_from_paths(ps, l1));
}

fn record_to_layout(rl: RecordLayout) -> (r: Layout)
    ensures
        r@ == record_as_layout_v(rl@),
{
    let RecordLayout { size, align, fields, padding } = rl;
    let r = Layout { size, align, fields, padding, variants: Vec::new() };
    proof {
        assert(r@.variants =~= Seq::<crate::model::VariantV>::empty());
        assert(r@ =~= record_as_layout_v(rl@));
    }
    r
}

fn union_fields(fs: &Vec<(String, TypePath)>) -> (r: Vec<(FieldName, TypePath)>)
    ensures
        r@.len() == fs@.len(),
        forall|j: int|
            0 <= j < r@.len() ==> (#[trigger] r@[j]).0@ == union_names(fs@)[j] && r@[j].1@
                == union_paths(fs@)[j],
{
    let mut out: Vec<(FieldName, TypePath)> = Vec::new();
    let mut i: usize = 0;
    while i < fs.len()
        invariant
            i <= fs.len(),
            out@.len() == i,
            forall|j: int|
                0 <= j < i ==> (#[trigger] out@[j]).0@ == FieldNameV::Named(fs@[j].0@)
                    && out@[j].1@ == fs@[j].1@,
        decreases fs.len() - i,
    {
        out.push((FieldName::Named(fs[i].0.clone()), fs[i].1.clone()));
        i = i + 1;
    }
    out
}

impl Data {
    /// Computes (or recalls) the layout of the type at `id`, memoizing into
    /// the catalog's layout cache. Definitions are never changed; cached
    /// layouts are never recomputed or overwritten, so a second request for
    /// the same path returns the identical layout.
    pub fn resolve(&mut self, id: &TypePath) -> (r: Result<Layout, LayoutError>)
        requires
            old(self).inv(),
        ensures
            final(self).inv(),
            final(self).defs() == old(self).defs(),
            forall|k: PathV|
                #[trigger] old(self).layouts().contains_key(k) ==> final(self).layouts().contains_key(k) && final(self).layouts()[k] == old(self).layouts()[k],
            r matches Ok(l) ==> final(self).layouts().contains_key(id@) && final(self).layouts()[id@] == l@,
            old(self).layouts().contains_key(id@) ==> (r matches Ok(l) && l@ == old(self).layouts()[id@] && final(self).layouts() == old(self).layouts()),
            r is Err ==> !final(self).layouts().contains_key(id@),
            !old(self).layouts().contains_key(id@) && !old(self).defs().contains_key(id@) ==> (
            r matches Err(e) && e@ == crate::model::ErrorV::Unknown(id@)),
            !old(self).layouts().contains_key(id@) && old(self).defs().contains_key(id@) && (old(self).defs()[id@] matches Item::Struct(s) && struct_field_paths(s).len() > 0
                && struct_field_paths(s)[0] == id@) ==> (r matches Err(e) && e@
                == crate::model::ErrorV::Recursive(seq![id@, id@])),
            !old(self).layouts().contains_key(id@) && old(self).defs().contains_key(id@) && (old(self).defs()[id@] matches Item::Enum(vs) && !spec_discs_consistent(vs@)) ==> (r matches Err(
                e,
            ) && e@ == crate::model::ErrorV::InconsistentDisc(id@)),
            !old(self).layouts().contains_key(id@) && old(self).defs().contains_key(id@) && (old(self).defs()[id@] matches Item::Struct(s) && deps_present(
                struct_field_paths(s),
                old(self).layouts(),
            ) && spec_rec_size(sal_from_paths(struct_field_paths(s), old(self).layouts()))
                <= usize::MAX) ==> r is Ok,
            !old(self).layouts().contains_key(id@) && old(self).defs().contains_key(id@) && (old(self).defs()[id@] matches Item::TypeAlias(t) && old(self).layouts().contains_key(t@))
                ==> r is Ok,
            !old(self).layouts().contains_key(id@) && old(self).defs().contains_key(id@) && (old(self).defs()[id@] matches Item::Union(fs) && deps_present(
                union_paths(fs@),
                old(self).layouts(),
            ) && spec_union_size(sal_from_paths(union_paths(fs@), old(self).layouts()))
                <= usize::MAX) ==> r is Ok,
            !old(self).layouts().contains_key(id@) && old(self).defs().contains_key(id@) && (old(self).defs()[id@] matches Item::Enum(vs) && enum_resolvable(vs@, old(self).layouts()))
                ==> r is Ok,
    {
        let mut stack: Vec<TypePath> = Vec::new();
        proof {
            assert(stack@ =~= Seq::<TypePath>::empty());
        }
        self.resolve_inner(id, &mut stack, usize::MAX)
    }

    #[verifier::rlimit(100)]
    #[verifier::loop_isolation(false)]
    fn resolve_inner(&mut self, id: &TypePath, stack: &mut Vec<TypePath>, fuel: usize) -> (r:
        Result<Layout, LayoutError>)
        requires
            old(self).inv(),
            forall|j: int|
                0 <= j < old(stack)@.len() ==> !old(self).layouts().contains_key(
                    (#[trigger] old(stack)@[j])@,
                ),
        ensures
            final(self).inv(),
            final(self).defs() == old(self).defs(),
            forall|k: PathV|
                #[trigger] old(self).layouts().contains_key(k) ==> final(self).layouts().contains_key(k) && final(self).layouts()[k] == old(self).layouts()[k],
            forall|j: int|
                0 <= j < old(stack)@.len() ==> !final(self).layouts().contains_key(
                    (#[trigger] old(stack)@[j])@,
                ),
            final(stack)@ == old(stack)@,
            r matches Ok(l) ==> final(self).layouts().contains_key(id@) && final(self).layouts()[id@] == l@,
            old(self).layouts().contains_key(id@) ==> (r matches Ok(l) && l@ == old(self).layouts()[id@] && final(self).layouts() == old(self).layouts()),
            r is Err ==> !final(self).layouts().contains_key(id@),
            !old(self).layouts().contains_key(id@) && stack_has(old(stack)@, id@) ==> (r matches
            Err(e) && e@ == crate::model::ErrorV::Recursive(cycle_of(old(stack)@, id@)) && final(self).layouts() == old(self).layouts()),
            !old(self).layouts().contains_key(id@) && !stack_has(old(stack)@, id@) && fuel >= 1
                && !old(self).defs().contains_key(id@) ==> (r matches Err(e) && e@
                == crate::model::ErrorV::Unknown(id@)),
            !old(self).layouts().contains_key(id@) && !stack_has(old(stack)@, id@) && fuel >= 2
                && old(self).defs().contains_key(id@) && (old(self).defs()[id@] matches
            Item::Struct(s) && struct_field_paths(s).len() > 0 && struct_field_paths(s)[0] == id@)
                ==> (r matches Err(e) && e@ == crate::model::ErrorV::Recursive(seq![id@, id@])),
            !old(self).layouts().contains_key(id@) && !stack_has(old(stack)@, id@) && fuel >= 1
                && old(self).defs().contains_key(id@) && (old(self).defs()[id@] matches Item::Enum(
                vs,
            ) && !spec_discs_consistent(vs@)) ==> (r matches Err(e) && e@
                == crate::model::ErrorV::InconsistentDisc(id@)),
            !old(self).layouts().contains_key(id@) && !stack_has(old(stack)@, id@) && fuel >= 1
                && old(self).defs().contains_key(id@) && (old(self).defs()[id@] matches
            Item::Struct(s) && deps_present(struct_field_paths(s), old(self).layouts())
                && spec_rec_size(sal_from_paths(struct_field_paths(s), old(self).layouts()))
                <= usize::MAX) ==> r is Ok,
            !old(self).layouts().contains_key(id@) && !stack_has(old(stack)@, id@) && fuel >= 1
                && old(self).defs().contains_key(id@) && (old(self).defs()[id@] matches
            Item::TypeAlias(t) && old(self).layouts().contains_key(t@)) ==> r is Ok,
            !old(self).layouts().contains_key(id@) && !stack_has(old(stack)@, id@) && fuel >= 1
                && old(self).defs().contains_key(id@) && (old(self).defs()[id@] matches
            Item::Union(fs) && deps_present(union_paths(fs@), old(self).layouts())
                && spec_union_size(sal_from_paths(union_paths(fs@), old(self).layouts()))
                <= usize::MAX) ==> r is Ok,
            !old(self).layouts().contains_key(id@) && !stack_has(old(stack)@, id@) && fuel >= 1
                && old(self).defs().contains_key(id@) && (old(self).defs()[id@] matches Item::Enum(
                vs,
            ) && enum_resolvable(vs@, old(self).layouts())) ==> r is Ok,
        decreases fuel, 1int,
    {
        // Memoized already?
        let cached = match self.get_layout(id) {
            Some(l) => Some(l.clone()),
            None => None,
        };
        match cached {
            Some(l) => {
                return Ok(l);
            },
            None => {},
        }
        // In progress further up: a direct-containment cycle.
        let mut j: usize = 0;
        while j < stack.len()
            invariant
                j <= stack@.len(),
                forall|m: int| 0 <= m < j ==> (#[trigger] stack@[m])@ != id@,
            decreases stack@.len() - j,
        {
            if stack[j].path_eq(id) {
                let mut cyc: Vec<TypePath> = Vec::new();
                let mut m: usize = j;
                while m < stack.len()
                    invariant
                        j <= m <= stack@.len(),
                        cyc@.len() == m - j,
                        forall|t: int| 0 <= t < m - j ==> (#[trigger] cyc@[t])@ == stack@[j + t]@,
                    decreases stack@.len() - m,
                {
                    cyc.push(stack[m].clone());
                    m = m + 1;
                }
                cyc.push(id.clone());
                proof {
                    lemma_first_idx(stack@, id@, j as int);
                    assert(cyc@.map_values(|p: TypePath| p@) =~= cycle_of(stack@, id@));
                }
                return Err(LayoutError::RecursiveTypeError(cyc));
            }
            j = j + 1;
        }
        proof {
            assert(!stack_has(stack@, id@));
        }
        if fuel == 0 {
            let mut cyc: Vec<TypePath> = Vec::new();
            cyc.push(id.clone());
            return Err(LayoutError::RecursiveTypeError(cyc));
        }
        match self.lookup(id) {
            None => Err(LayoutError::UnknownTypeReference(id.clone())),
            Some(item) => match item {
                Item::Struct(s) => {
                    let ghost def_s = *s;
                    let fields = crate::model::struct_fields(s);
                    self.resolve_record(id, stack, fuel, Ghost(def_s), fields)
                },
                Item::TypeAlias(t) => {
                    let target = t.clone();
                    self.resolve_alias(id, stack, fuel, target)
                },
                Item::Union(fs) => {
                    let ghost def_fs = fs@;
                    let fields = union_fields(fs);
                    self.resolve_union(id, stack, fuel, Ghost(def_fs), fields)
                },
                Item::Enum(vs) => {
                    let ghost def_vs = vs@;
                    let maxv = match disc_range(vs) {
                        None => {
                            return Err(LayoutError::InconsistentDiscriminants(id.clone()));
                        },
                        Some(m) => m,
                    };
                    let variants = clone_enum_variants(vs);
                    self.resolve_enum(id, stack, fuel, Ghost(def_vs), maxv, variants)
                },
            },
        }
    }
}

impl Data {
    #[verifier::rlimit(100)]
    #[verifier::loop_isolation(false)]
    fn resolve_record(
        &mut self,
        id: &TypePath,
        stack: &mut Vec<TypePath>,
        fuel: usize,
        Ghost(def_s): Ghost<Struct>,
        fields: Vec<(FieldName, TypePath)>,
    ) -> (r: Result<Layout, LayoutError>)
        requires
            old(self).inv(),
            fuel >= 1,
            !old(self).layouts().contains_key(id@),
            !stack_has(old(stack)@, id@),
            forall|j: int|
                0 <= j < old(stack)@.len() ==> !old(self).layouts().contains_key(
                    (#[trigger] old(stack)@[j])@,
                ),
            old(self).defs().contains_key(id@),
            old(self).defs()[id@] == Item::Struct(def_s),
            fields@.len() == struct_field_paths(def_s).len(),
            struct_field_names(def_s).len() == struct_field_paths(def_s).len(),
            forall|j: int|
                0 <= j < fields@.len() ==> (#[trigger] fields@[j]).0@ == struct_field_names(
                    def_s,
                )[j] && fields@[j].1@ == struct_field_paths(def_s)[j],
        ensures
            final(self).inv(),
            final(self).defs() == old(self).defs(),
            forall|k: PathV|
                #[trigger] old(self).layouts().contains_key(k) ==> final(self).layouts().contains_key(k) && final(self).layouts()[k] == old(self).layouts()[k],
            forall|j: int|
                0 <= j < old(stack)@.len() ==> !final(self).layouts().contains_key(
                    (#[trigger] old(stack)@[j])@,
                ),
            final(stack)@ == old(stack)@,
            r matches Ok(l) ==> final(self).layouts().contains_key(id@) && final(self).layouts()[id@] == l@,
            r is Err ==> !final(self).layouts().contains_key(id@),
            struct_field_paths(def_s).len() > 0 && struct_field_paths(def_s)[0] == id@ ==> (
            r matches Err(e) && e@ == crate::model::ErrorV::Recursive(seq![id@, id@])),
            deps_present(struct_field_paths(def_s), old(self).layouts()) && spec_rec_size(
                sal_from_paths(struct_field_paths(def_s), old(self).layouts()),
            ) <= usize::MAX ==> r is Ok,
        decreases fuel, 0int,
    {
        let ghost ps = struct_field_paths(def_s);
        let ghost names = struct_field_names(def_s);
        let ghost l0 = old(self).layouts();
        stack.push(id.clone());
        let ghost stack1 = stack@;
        let mut resolved: Vec<(FieldName, usize, usize)> = Vec::new();
        let mut i: usize = 0;
        while i < fields.len()
            invariant
                self.inv(),
                self.defs() == old(self).defs(),
                forall|k: PathV|
                    #[trigger] l0.contains_key(k) ==> self.layouts().contains_key(k)
                        && self.layouts()[k] == l0[k],
                forall|j: int|
                    0 <= j < stack1.len() ==> !self.layouts().contains_key(
                        (#[trigger] stack1[j])@,
                    ),
                stack@ == stack1,
                i <= fields@.len(),
                resolved@.len() == i,
                forall|j: int|
                    0 <= j < i ==> self.layouts().contains_key(#[trigger] ps[j]),
                forall|j: int|
                    0 <= j < i ==> (#[trigger] resolved@[j]).0@ == names[j] && resolved@[j].1
                        as nat == self.layouts()[ps[j]].size && resolved@[j].2 as nat
                        == self.layouts()[ps[j]].align,
            decreases fields@.len() - i,
        {
            match self.resolve_inner(&fields[i].1, stack, fuel - 1) {
                Err(e) => {
                    stack.pop();
                    proof {
                        assert(stack@ =~= old(stack)@);
                        if ps.len() > 0 && ps[0] == id@ {
                            assert(i == 0) by {
                                if i > 0 {
                                    assert(self.layouts().contains_key(ps[0]));
                                }
                            }
                            assert(fields@[0].1@ == id@);
                            lemma_first_idx(stack1, id@, old(stack)@.len() as int);
                            assert(cycle_of(stack1, id@) =~= seq![id@, id@]) by {
                                assert(stack1.skip(old(stack)@.len() as int) =~= seq![
                                    stack1.last(),
                                ]);
                                assert(stack1.skip(old(stack)@.len() as int).map_values(
                                    |p: TypePath| p@,
                                ) =~= seq![id@]);
                            }
                        }
                    }
                    return Err(e);
                },
                Ok(l) => {
                    resolved.push((fields[i].0.clone(), l.size, l.align));
                },
            }
            i = i + 1;
        }
        proof {
            assert forall|j: int| 0 <= j < resolved@.len() implies (#[trigger] resolved@[j]).2
                >= 1 by {
                crate::catalog::lemma_inv_facts(*self, ps[j]);
                assert(wf_layout_v(self.layouts()[ps[j]]));
            }
            assert(sal_of(resolved@) =~= sal_from_paths(ps, self.layouts()));
            assert(names_of(resolved@) =~= names);
        }
        match layout_record(&resolved) {
            None => {
                stack.pop();
                proof {
                    assert(stack@ =~= old(stack)@);
                    if deps_present(ps, l0) && spec_rec_size(sal_from_paths(ps, l0))
                        <= usize::MAX {
                        assert(sal_from_paths(ps, self.layouts()) =~= sal_from_paths(ps, l0));
                        assert(false);
                    }
                }
                Err(LayoutError::SizeOverflow(id.clone()))
            },
            Some(rl) => {
                let l = record_to_layout(rl);
                stack.pop();
                proof {
                    assert(stack@ =~= old(stack)@);
                    assert forall|j: int| 0 <= j < resolved@.len() implies is_pow2(
                        (#[trigger] sal_of(resolved@)[j]).1,
                    ) by {
                        crate::catalog::lemma_inv_facts(*self, ps[j]);
                assert(wf_layout_v(self.layouts()[ps[j]]));
                    }
                    lemma_rec_align_pow2(sal_of(resolved@));
                    lemma_rec_align_pos(sal_of(resolved@));
                    assert(crate::calc::aligns_pos(sal_of(resolved@)));
                    crate::calc::lemma_record_coverage(names_of(resolved@), sal_of(resolved@));
                    assert(wf_layout_v(l@));
                    let lay2 = self.layouts().insert(id@, l@);
                    assert forall|j: int| 0 <= j < ps.len() implies lay2.contains_key(
                        #[trigger] ps[j],
                    ) && lay2[ps[j]] == self.layouts()[ps[j]] by {
                        assert(self.layouts().contains_key(ps[j]));
                        assert(ps[j] != id@);
                    }
                    assert(sal_from_paths(ps, lay2) =~= sal_from_paths(ps, self.layouts()));
                    assert(l@ == record_as_layout_v(record_v_of(def_s, lay2)));
                    assert(coherent_at(self.defs(), lay2, id@));
                }
                let lc = l.clone();
                self.insert_layout(id.clone(), lc);
                Ok(l)
            },
        }
    }

    #[verifier::rlimit(100)]
    fn resolve_alias(
        &mut self,
        id: &TypePath,
        stack: &mut Vec<TypePath>,
        fuel: usize,
        target: TypePath,
    ) -> (r: Result<Layout, LayoutError>)
        requires
            old(self).inv(),
            fuel >= 1,
            !old(self).layouts().contains_key(id@),
            !stack_has(old(stack)@, id@),
            forall|j: int|
                0 <= j < old(stack)@.len() ==> !old(self).layouts().contains_key(
                    (#[trigger] old(stack)@[j])@,
                ),
            old(self).defs().contains_key(id@),
            old(self).defs()[id@] matches Item::TypeAlias(t) && t@ == target@,
        ensures
            final(self).inv(),
            final(self).defs() == old(self).defs(),
            forall|k: PathV|
                #[trigger] old(self).layouts().contains_key(k) ==> final(self).layouts().contains_key(k) && final(self).layouts()[k] == old(self).layouts()[k],
            forall|j: int|
                0 <= j < old(stack)@.len() ==> !final(self).layouts().contains_key(
                    (#[trigger] old(stack)@[j])@,
                ),
            final(stack)@ == old(stack)@,
            r matches Ok(l) ==> final(self).layouts().contains_key(id@) && final(self).layouts()[id@] == l@,
            r is Err ==> !final(self).layouts().contains_key(id@),
            old(self).layouts().contains_key(target@) ==> r is Ok,
        decreases fuel, 0int,
    {
        stack.push(id.clone());
        let ghost stack1 = stack@;
        match self.resolve_inner(&target, stack, fuel - 1) {
            Err(e) => {
                stack.pop();
                proof {
                    assert(stack@ =~= old(stack)@);
                }
                Err(e)
            },
            Ok(l) => {
                stack.pop();
                proof {
                    assert(stack@ =~= old(stack)@);
                    assert(target@ != id@);
                    crate::catalog::lemma_inv_facts(*self, target@);
                    assert(wf_layout_v(l@));
                    let lay2 = self.layouts().insert(id@, l@);
                    assert(coherent_at(self.defs(), lay2, id@));
                }
                let lc = l.clone();
                self.insert_layout(id.clone(), lc);
                Ok(l)
            },
        }
    }

    #[verifier::rlimit(100)]
    #[verifier::loop_isolation(false)]
    fn resolve_union(
        &mut self,
        id: &TypePath,
        stack: &mut Vec<TypePath>,
        fuel: usize,
        Ghost(def_fs): Ghost<Seq<(String, TypePath)>>,
        fields: Vec<(FieldName, TypePath)>,
    ) -> (r: Result<Layout, LayoutError>)
        requires
            old(self).inv(),
            fuel >= 1,
            !old(self).layouts().contains_key(id@),
            !stack_has(old(stack)@, id@),
            forall|j: int|
                0 <= j < old(stack)@.len() ==> !old(self).layouts().contains_key(
                    (#[trigger] old(stack)@[j])@,
                ),
            old(self).defs().contains_key(id@),
            old(self).defs()[id@] matches Item::Union(fs) && fs@ == def_fs,
            fields@.len() == def_fs.len(),
            forall|j: int|
                0 <= j < fields@.len() ==> (#[trigger] fields@[j]).0@ == union_names(def_fs)[j]
                    && fields@[j].1@ == union_paths(def_fs)[j],
        ensures
            final(self).inv(),
            final(self).defs() == old(self).defs(),
            forall|k: PathV|
                #[trigger] old(self).layouts().contains_key(k) ==> final(self).layouts().contains_key(k) && final(self).layouts()[k] == old(self).layouts()[k],
            forall|j: int|
                0 <= j < old(stack)@.len() ==> !final(self).layouts().contains_key(
                    (#[trigger] old(stack)@[j])@,
                ),
            final(stack)@ == old(stack)@,
            r matches Ok(l) ==> final(self).layouts().contains_key(id@) && final(self).layouts()[id@] == l@,
            r is Err ==> !final(self).layouts().contains_key(id@),
            deps_present(union_paths(def_fs), old(self).layouts()) && spec_union_size(
                sal_from_paths(union_paths(def_fs), old(self).layouts()),
            ) <= usize::MAX ==> r is Ok,
        decreases fuel, 0int,
    {
        let ghost ps = union_paths(def_fs);
        let ghost names = union_names(def_fs);
        let ghost l0 = old(self).layouts();
        stack.push(id.clone());
        let ghost stack1 = stack@;
        let mut resolved: Vec<(FieldName, usize, usize)> = Vec::new();
        let mut i: usize = 0;
        while i < fields.len()
            invariant
                self.inv(),
                self.defs() == old(self).defs(),
                forall|k: PathV|
                    #[trigger] l0.contains_key(k) ==> self.layouts().contains_key(k)
                        && self.layouts()[k] == l0[k],
                forall|j: int|
                    0 <= j < stack1.len() ==> !self.layouts().contains_key(
                        (#[trigger] stack1[j])@,
                    ),
                stack@ == stack1,
                i <= fields@.len(),
                resolved@.len() == i,
                forall|j: int|
                    0 <= j < i ==> self.layouts().contains_key(#[trigger] ps[j]),
                forall|j: int|
                    0 <= j < i ==> (#[trigger] resolved@[j]).0@ == names[j] && resolved@[j].1
                        as nat == self.layouts()[ps[j]].size && resolved@[j].2 as nat
                        == self.layouts()[ps[j]].align,
            decreases fields@.len() - i,
        {
            match self.resolve_inner(&fields[i].1, stack, fuel - 1) {
                Err(e) => {
                    stack.pop();
                    proof {
                        assert(stack@ =~= old(stack)@);
                    }
                    return Err(e);
                },
                Ok(l) => {
                    resolved.push((fields[i].0.clone(), l.size, l.align));
                },
            }
            i = i + 1;
        }
        proof {
            assert forall|j: int| 0 <= j < resolved@.len() implies (#[trigger] resolved@[j]).2
                >= 1 by {
                crate::catalog::lemma_inv_facts(*self, ps[j]);
                assert(wf_layout_v(self.layouts()[ps[j]]));
            }
            assert(sal_of(resolved@) =~= sal_from_paths(ps, self.layouts()));
            assert(names_of(resolved@) =~= names);
        }
        match layout_union(&resolved) {
            None => {
                stack.pop();
                proof {
                    assert(stack@ =~= old(stack)@);
                    if deps_present(ps, l0) && spec_union_size(sal_from_paths(ps, l0))
                        <= usize::MAX {
                        assert(sal_from_paths(ps, self.layouts()) =~= sal_from_paths(ps, l0));
                        assert(false);
                    }
                }
                Err(LayoutError::SizeOverflow(id.clone()))
            },
            Some(l) => {
                stack.pop();
                proof {
                    assert(stack@ =~= old(stack)@);
                    assert forall|j: int| 0 <= j < resolved@.len() implies is_pow2(
                        (#[trigger] sal_of(resolved@)[j]).1,
                    ) by {
                        crate::catalog::lemma_inv_facts(*self, ps[j]);
                assert(wf_layout_v(self.layouts()[ps[j]]));
                    }
                    lemma_rec_align_pow2(sal_of(resolved@));
                    lemma_rec_align_pos(sal_of(resolved@));
                    crate::calc::lemma_union_padding_bound(names_of(resolved@), sal_of(resolved@));
                    assert(wf_layout_v(l@));
                    let lay2 = self.layouts().insert(id@, l@);
                    assert forall|j: int| 0 <= j < ps.len() implies lay2.contains_key(
                        #[trigger] ps[j],
                    ) && lay2[ps[j]] == self.layouts()[ps[j]] by {
                        assert(self.layouts().contains_key(ps[j]));
                        assert(ps[j] != id@);
                    }
                    assert(sal_from_paths(ps, lay2) =~= sal_from_paths(ps, self.layouts()));
                    assert(l@ == union_layout_v(names, sal_from_paths(ps, lay2)));
                    assert(coherent_at(self.defs(), lay2, id@));
                }
                let lc = l.clone();
                self.insert_layout(id.clone(), lc);
                Ok(l)
            },
        }
    }
}

fn clone_enum_variants(vs: &Vec<(String, Option<u64>, Struct)>) -> (r: Vec<
    (String, Vec<(FieldName, TypePath)>),
>)
    ensures
        r@.len() == vs@.len(),
        forall|i: int| 0 <= i < r@.len() ==> (#[trigger] r@[i]).0 == vs@[i].0,
        forall|i: int|
            0 <= i < r@.len() ==> (#[trigger] r@[i]).1@.len() == struct_field_paths(
                vs@[i].2,
            ).len() && struct_field_names(vs@[i].2).len() == struct_field_paths(vs@[i].2).len()
                && (forall|j: int|
                0 <= j < r@[i].1@.len() ==> (#[trigger] r@[i].1@[j]).0@ == struct_field_names(
                    vs@[i].2,
                )[j] && r@[i].1@[j].1@ == struct_field_paths(vs@[i].2)[j]),
{
    let mut out: Vec<(String, Vec<(FieldName, TypePath)>)> = Vec::new();
    let mut i: usize = 0;
    while i < vs.len()
        invariant
            i <= vs.len(),
            out@.len() == i,
            forall|k: int| 0 <= k < i ==> (#[trigger] out@[k]).0 == vs@[k].0,
            forall|k: int|
                0 <= k < i ==> (#[trigger] out@[k]).1@.len() == struct_field_paths(
                    vs@[k].2,
                ).len() && struct_field_names(vs@[k].2).len() == struct_field_paths(
                    vs@[k].2,
                ).len() && (forall|j: int|
                    0 <= j < out@[k].1@.len() ==> (#[trigger] out@[k].1@[j]).0@
                        == struct_field_names(vs@[k].2)[j] && out@[k].1@[j].1@
                        == struct_field_paths(vs@[k].2)[j]),
        decreases vs.len() - i,
    {
        let name = vs[i].0.clone();
        let flds = crate::model::struct_fields(&vs[i].2);
        out.push((name, flds));
        i = i + 1;
    }
    out
}

impl Data {
    #[verifier::rlimit(100)]
    #[verifier::loop_isolation(false)]
    fn resolve_enum(
        &mut self,
        id: &TypePath,
        stack: &mut Vec<TypePath>,
        fuel: usize,
        Ghost(def_vs): Ghost<Seq<(String, Option<u64>, Struct)>>,
        maxv: u64,
        variants: Vec<(String, Vec<(FieldName, TypePath)>)>,
    ) -> (r: Result<Layout, LayoutError>)
        requires
            old(self).inv(),
            fuel >= 1,
            !old(self).layouts().contains_key(id@),
            !stack_has(old(stack)@, id@),
            forall|j: int|
                0 <= j < old(stack)@.len() ==> !old(self).layouts().contains_key(
                    (#[trigger] old(stack)@[j])@,
                ),
            old(self).defs().contains_key(id@),
            old(self).defs()[id@] matches Item::Enum(vs) && vs@ == def_vs,
            spec_discs_consistent(def_vs),
            maxv as nat == spec_disc_max(def_vs),
            variants@.len() == def_vs.len(),
            forall|i: int| 0 <= i < variants@.len() ==> (#[trigger] variants@[i]).0 == def_vs[i].0,
            forall|i: int|
                0 <= i < variants@.len() ==> (#[trigger] variants@[i]).1@.len()
                    == struct_field_paths(def_vs[i].2).len() && struct_field_names(
                    def_vs[i].2,
                ).len() == struct_field_paths(def_vs[i].2).len() && (forall|j: int|
                    0 <= j < variants@[i].1@.len() ==> (#[trigger] variants@[i].1@[j]).0@
                        == struct_field_names(def_vs[i].2)[j] && variants@[i].1@[j].1@
                        == struct_field_paths(def_vs[i].2)[j]),
        ensures
            final(self).inv(),
            final(self).defs() == old(self).defs(),
            forall|k: PathV|
                #[trigger] old(self).layouts().contains_key(k) ==> final(self).layouts().contains_key(k) && final(self).layouts()[k] == old(self).layouts()[k],
            forall|j: int|
                0 <= j < old(stack)@.len() ==> !final(self).layouts().contains_key(
                    (#[trigger] old(stack)@[j])@,
                ),
            final(stack)@ == old(stack)@,
            r matches Ok(l) ==> final(self).layouts().contains_key(id@) && final(self).layouts()[id@] == l@,
            r is Err ==> !final(self).layouts().contains_key(id@),
            enum_resolvable(def_vs, old(self).layouts()) ==> r is Ok,
        decreases fuel, 0int,
    {
        let w = disc_width(maxv);
        stack.push(id.clone());
        let ghost stack1 = stack@;
        let mut payloads: Vec<(String, RecordLayout)> = Vec::new();
        let mut vi: usize = 0;
        while vi < variants.len()
            invariant
                self.inv(),
                self.defs() == old(self).defs(),
                forall|k: PathV|
                    #[trigger] old(self).layouts().contains_key(k) ==> self.layouts().contains_key(
                        k,
                    ) && self.layouts()[k] == old(self).layouts()[k],
                forall|j: int|
                    0 <= j < stack1.len() ==> !self.layouts().contains_key(
                        (#[trigger] stack1[j])@,
                    ),
                stack@ == stack1,
                vi <= variants@.len(),
                payloads@.len() == vi,
                forall|k: int|
                    0 <= k < vi ==> deps_present(
                        struct_field_paths(def_vs[k].2),
                        self.layouts(),
                    ),
                forall|k: int|
                    0 <= k < vi ==> (#[trigger] payloads@[k]).0 == def_vs[k].0 && payloads@[k].1@
                        == record_v_of(def_vs[k].2, self.layouts()),
            decreases variants@.len() - vi,
        {
            let ghost l_before = self.layouts();
            let ghost ps = struct_field_paths(def_vs[vi as int].2);
            let ghost names = struct_field_names(def_vs[vi as int].2);
            let mut resolved: Vec<(FieldName, usize, usize)> = Vec::new();
            let mut i: usize = 0;
            while i < variants[vi].1.len()
                invariant
                    self.inv(),
                    self.defs() == old(self).defs(),
                    vi < variants@.len(),
                    forall|k: PathV|
                        #[trigger] l_before.contains_key(k) ==> self.layouts().contains_key(k)
                            && self.layouts()[k] == l_before[k],
                    forall|j: int|
                        0 <= j < stack1.len() ==> !self.layouts().contains_key(
                            (#[trigger] stack1[j])@,
                        ),
                    stack@ == stack1,
                    i <= variants@[vi as int].1@.len(),
                    resolved@.len() == i,
                    forall|j: int|
                        0 <= j < i ==> self.layouts().contains_key(#[trigger] ps[j]),
                    forall|j: int|
                        0 <= j < i ==> (#[trigger] resolved@[j]).0@ == names[j] && resolved@[j].1
                            as nat == self.layouts()[ps[j]].size && resolved@[j].2 as nat
                            == self.layouts()[ps[j]].align,
                decreases variants@[vi as int].1@.len() - i,
            {
                match self.resolve_inner(&variants[vi].1[i].1, stack, fuel - 1) {
                    Err(e) => {
                        stack.pop();
                        proof {
                            assert(stack@ =~= old(stack)@);
                        }
                        return Err(e);
                    },
                    Ok(l) => {
                        resolved.push((variants[vi].1[i].0.clone(), l.size, l.align));
                    },
                }
                i = i + 1;
            }
            proof {
                assert forall|j: int| 0 <= j < resolved@.len() implies (#[trigger] resolved@[j]).2
                    >= 1 by {
                    crate::catalog::lemma_inv_facts(*self, ps[j]);
                assert(wf_layout_v(self.layouts()[ps[j]]));
                }
                assert(sal_of(resolved@) =~= sal_from_paths(ps, self.layouts()));
                assert(names_of(resolved@) =~= names);
            }
            match layout_record(&resolved) {
                None => {
                    stack.pop();
                    proof {
                        assert(stack@ =~= old(stack)@);
                        if enum_resolvable(def_vs, old(self).layouts()) {
                            assert(deps_present(
                                struct_field_paths(def_vs[vi as int].2),
                                old(self).layouts(),
                            ));
                            assert forall|m: int| 0 <= m < ps.len() implies self.layouts()
                                .contains_key(#[trigger] ps[m]) && self.layouts()[ps[m]] == old(
                                self,
                            ).layouts()[ps[m]] by {
                                assert(old(self).layouts().contains_key(ps[m]));
                                assert(l_before.contains_key(ps[m]));
                            }
                            assert(sal_from_paths(ps, self.layouts()) =~= sal_from_paths(
                                ps,
                                old(self).layouts(),
                            ));
                            assert(false);
                        }
                    }
                    return Err(LayoutError::SizeOverflow(id.clone()));
                },
                Some(rl) => {
                    let name = variants[vi].0.clone();
                    proof {
                        assert(rl@ == record_v_of(def_vs[vi as int].2, self.layouts()));
                        assert forall|k: int| 0 <= k < vi implies deps_present(
                            struct_field_paths(def_vs[k].2),
                            self.layouts(),
                        ) && (#[trigger] payloads@[k]).1@ == record_v_of(
                            def_vs[k].2,
                            self.layouts(),
                        ) by {
                            lemma_record_v_frame(def_vs[k].2, l_before, self.layouts());
                        }
                    }
                    payloads.push((name, rl));
                },
            }
            vi = vi + 1;
        }
        proof {
            assert forall|k: int| 0 <= k < payloads@.len() implies (#[trigger] payloads@[k]).1@
                .align >= 1 by {
                lemma_rec_align_pos(
                    sal_from_paths(struct_field_paths(def_vs[k].2), self.layouts()),
                );
            }
        }
        match layout_sum(w, payloads) {
            None => {
                stack.pop();
                proof {
                    assert(stack@ =~= old(stack)@);
                    if enum_resolvable(def_vs, old(self).layouts()) {
                        assert forall|k: int| 0 <= k < def_vs.len() implies (
                        #[trigger] payloads@[k]).1@ == record_v_of(
                            def_vs[k].2,
                            old(self).layouts(),
                        ) by {
                            assert(deps_present(
                                struct_field_paths(def_vs[k].2),
                                old(self).layouts(),
                            ));
                            lemma_record_v_frame(def_vs[k].2, old(self).layouts(), self.layouts());
                        }
                        assert(payloads@.map_values(|v: (String, RecordLayout)| v.1@)
                            =~= enum_payloads_v(def_vs, old(self).layouts()));
                        assert(false);
                    }
                }
                Err(LayoutError::SizeOverflow(id.clone()))
            },
            Some(l) => {
                stack.pop();
                proof {
                    assert(stack@ =~= old(stack)@);
                }
                let ghost pls = enum_payloads_v(def_vs, self.layouts());
                let ghost vnames = def_vs.map_values(
                    |v: (String, Option<u64>, Struct)| v.0@,
                );
                proof {
                    assert(payloads@.map_values(|v: (String, RecordLayout)| v.1@) =~= pls);
                    assert(payloads@.map_values(|v: (String, RecordLayout)| v.0@) =~= vnames);
                    assert forall|k: int| 0 <= k < pls.len() implies is_pow2(
                        (#[trigger] variant_sals(pls)[k]).1,
                    ) by {
                        let ps_k = struct_field_paths(def_vs[k].2);
                        assert forall|j: int| 0 <= j < ps_k.len() implies is_pow2(
                            (#[trigger] sal_from_paths(ps_k, self.layouts())[j]).1,
                        ) by {
                            assert(self.layouts().contains_key(ps_k[j]));
                            crate::catalog::lemma_inv_facts(*self, ps_k[j]);
                assert(wf_layout_v(self.layouts()[ps_k[j]]));
                        }
                        lemma_rec_align_pow2(sal_from_paths(ps_k, self.layouts()));
                    }
                    lemma_rec_align_pow2(variant_sals(pls));
                    lemma_rec_align_pos(variant_sals(pls));
                    crate::calc::lemma_sum_padding_bound(w as nat, vnames, pls);
                    assert(wf_layout_v(l@));
                    let lay2 = self.layouts().insert(id@, l@);
                    assert forall|k: int| 0 <= k < def_vs.len() implies deps_present(
                        struct_field_paths((#[trigger] def_vs[k]).2),
                        lay2,
                    ) && record_v_of(def_vs[k].2, lay2) == record_v_of(
                        def_vs[k].2,
                        self.layouts(),
                    ) by {
                        lemma_record_v_frame(def_vs[k].2, self.layouts(), lay2);
                    }
                    assert(enum_payloads_v(def_vs, lay2) =~= pls);
                    assert(l@ == sum_layout_v(
                        spec_disc_width(spec_disc_max(def_vs)),
                        vnames,
                        enum_payloads_v(def_vs, lay2),
                    ));
                    assert(coherent_at(self.defs(), lay2, id@));
                }
                let lc = l.clone();
                self.insert_layout(id.clone(), lc);
                Ok(l)
            },
        }
    }
}

} // verus!
