use vstd::prelude::*;

verus! {

/// Mathematical view of a type path: whether it is rooted, and its
/// name segments as character sequences.
#[verifier::ext_equal]
pub ghost struct PathV {
    pub absolute: bool,
    pub segments: Seq<Seq<char>>,
}

/// Appending one segment to a path view.
pub open spec fn pv_push(p: PathV, s: Seq<char>) -> PathV {
    PathV { absolute: p.absolute, segments: p.segments.push(s) }
}

/// A fully-qualified path identifying a type uniquely within the catalog.
/// Equality is structural, over the view.
#[derive(Debug)]
pub struct TypePath {
    pub absolute: bool,
    pub segments: Vec<String>,
}

impl View for TypePath {
    type V = PathV;

    open spec fn view(&self) -> PathV {
        PathV { absolute: self.absolute, segments: self.segments@.map_values(|s: String| s@) }
    }
}

impl Clone for TypePath {
    /// The clone denotes the same path.
    fn clone(&self) -> (r: Self)
        ensures
            r@ == self@,
    {
        let mut segs: Vec<String> = Vec::new();
        let mut i: usize = 0;
        while i < self.segments.len()
            invariant
                i <= self.segments.len(),
                segs@.len() == i,
                forall|j: int| 0 <= j < i ==> segs@[j] == self.segments@[j],
            decreases self.segments.len() - i,
        {
            segs.push(self.segments[i].clone());
            i = i + 1;
        }
        let r = TypePath { absolute: self.absolute, segments: segs };
        proof {
            assert(r@.segments =~= self@.segments);
            assert(r@ =~= self@);
        }
        r
    }
}

impl TypePath {
    /// The empty, non-absolute path.
    pub fn new() -> (r: Self)
        ensures
            r@ == (PathV { absolute: false, segments: Seq::<Seq<char>>::empty() }),
    {
        let r = TypePath { absolute: false, segments: Vec::new() };
        proof {
            assert(r@.segments =~= Seq::<Seq<char>>::empty());
            assert(r@ =~= (PathV { absolute: false, segments: Seq::<Seq<char>>::empty() }));
        }
        r
    }

    /// Whether the path is rooted (written with a leading separator).
    pub fn is_absolute(&self) -> (r: bool)
        ensures
            r == self@.absolute,
    {
        self.absolute
    }

    /// Joining `other` onto `self`: an absolute `other` replaces `self`,
    /// otherwise the segments are appended.
    pub fn concat(&self, other: TypePath) -> (r: TypePath)
        ensures
            other@.absolute ==> r@ == other@,
            !other@.absolute ==> r@ == (PathV {
                absolute: self@.absolute,
                segments: self@.segments + other@.segments,
            }),
    {
        if other.is_absolute() {
            other
        } else {
            let mut segs: Vec<String> = Vec::new();
            let mut i: usize = 0;
            while i < self.segments.len()
                invariant
                    i <= self.segments.len(),
                    segs@.len() == i,
                    forall|j: int| 0 <= j < i ==> segs@[j] == self.segments@[j],
                decreases self.segments.len() - i,
            {
                segs.push(self.segments[i].clone());
                i = i + 1;
            }
            let mut k: usize = 0;
            let n: usize = self.segments.len();
            while k < other.segments.len()
                invariant
                    k <= other.segments.len(),
                    n == self.segments@.len(),
                    segs@.len() == n + k,
                    forall|j: int| 0 <= j < n ==> segs@[j] == self.segments@[j],
                    forall|j: int| 0 <= j < k ==> segs@[n + j] == other.segments@[j],
                decreases other.segments.len() - k,
            {
                segs.push(other.segments[k].clone());
                k = k + 1;
            }
            let r = TypePath { absolute: self.absolute, segments: segs };
            proof {
                assert(r@.segments =~= self@.segments + other@.segments);
                assert(r@ =~= (PathV {
                    absolute: self@.absolute,
                    segments: self@.segments + other@.segments,
                }));
            }
            r
        }
    }

    /// Appends one segment to the path.
    pub fn push(&mut self, item: String)
        ensures
            final(self)@ == pv_push(old(self)@, item@),
    {
        self.segments.push(item);
        proof {
            assert(self@.segments =~= old(self)@.segments.push(self.segments@.last()@));
            assert(self@ =~= pv_push(old(self)@, self.segments@.last()@));
        }
    }

    /// Structural equality of two paths.
    pub fn path_eq(&self, other: &TypePath) -> (r: bool)
        ensures
            r == (self@ == other@),
    {
        if self.absolute != other.absolute {
            return false;
        }
        if self.segments.len() != other.segments.len() {
            proof {
                assert(self@.segments.len() != other@.segments.len());
            }
            return false;
        }
        let mut i: usize = 0;
        while i < self.segments.len()
            invariant
                i <= self.segments.len(),
                self.segments@.len() == other.segments@.len(),
                self.absolute == other.absolute,
                forall|j: int| 0 <= j < i ==> self.segments@[j]@ == other.segments@[j]@,
            decreases self.segments.len() - i,
        {
            if !(self.segments[i] == other.segments[i]) {
                proof {
                    assert(self@.segments[i as int] != other@.segments[i as int]);
                }
                return false;
            }
            i = i + 1;
        }
        proof {
            assert(self@.segments =~= other@.segments);
            assert(self@ =~= other@);
        }
        true
    }
}

} // verus!
