//! Blending of two sample buffers by a mix factor.

use vstd::prelude::*;

verus! {

/// A mix factor together with the operation that blends two samples by it.
///
/// The operation takes a sample of the first buffer, the sample of the second
/// buffer at the same place and the factor, in this order. It must accept
/// every such triple. For a factor `m` the intended operation gives
/// `a * m + b * (1 - m)`; the factor is not clamped.
#[verifier::reject_recursive_types(S)]
pub struct Mixer<S: Copy, F: Fn(S, S, S) -> S> {
    factor: S,
    blend: F,
}

impl<S: Copy, F: Fn(S, S, S) -> S> Mixer<S, F> {
    #[verifier::type_invariant]
    spec fn inv(&self) -> bool {
        forall|a: S, b: S, m: S| call_requires(self.blend, (a, b, m))
    }

    /// The mix factor.
    pub closed spec fn spec_factor(&self) -> S {
        self.factor
    }

    /// Whether the operation can give `r` for the samples `a` and `b` and
    /// this mixer's factor.
    pub closed spec fn blends(&self, a: S, b: S, r: S) -> bool {
        call_ensures(self.blend, (a, b, self.factor), r)
    }

    /// Whether `out` is a blend of the buffers `a` and `b`: they are paired
    /// by position, the pairing stops at the end of the shorter one, and each
    /// sample of `out` is the blend of its pair.
    pub open spec fn mixes(&self, a: Seq<S>, b: Seq<S>, out: Seq<S>) -> bool {
        &&& out.len() == if a.len() <= b.len() {
            a.len()
        } else {
            b.len()
        }
        &&& forall|i: int| 0 <= i < out.len() ==> self.blends(a[i], b[i], #[trigger] out[i])
    }

    /// Whether the operation gives one result only for each pair of samples.
    pub open spec fn single_valued(&self) -> bool {
        forall|a: S, b: S, r1: S, r2: S|
            #[trigger] self.blends(a, b, r1) && #[trigger] self.blends(a, b, r2) ==> r1 == r2
    }

    /// Where the operation gives one result only for each pair of samples,
    /// two buffers have one blend only.
    pub proof fn lemma_mixes_unique(&self, a: Seq<S>, b: Seq<S>, out1: Seq<S>, out2: Seq<S>)
        requires
            self.single_valued(),
            self.mixes(a, b, out1),
            self.mixes(a, b, out2),
        ensures
            out1 == out2,
    {
        assert forall|i: int| 0 <= i < out1.len() implies out1[i] == out2[i] by {
            assert(self.blends(a[i], b[i], out1[i]));
            assert(self.blends(a[i], b[i], out2[i]));
        }
        assert(out1 =~= out2);
    }

    /// A mixer with the given factor and blending operation.
    pub fn new(factor: S, blend: F) -> (r: Self)
        requires
            forall|a: S, b: S, m: S| call_requires(blend, (a, b, m)),
        ensures
            r.spec_factor() == factor,
            forall|a: S, b: S, o: S| #[trigger] r.blends(a, b, o) <==> call_ensures(blend, (a, b, factor), o),
    {
        Mixer { factor, blend }
    }

    /// The mix factor.
    #[verifier::when_used_as_spec(spec_factor)]
    pub fn factor(&self) -> (r: S)
        ensures
            r == self.spec_factor(),
    {
        self.factor
    }

    /// Blends one pair of samples.
    pub fn apply(&self, a: S, b: S) -> (r: S)
        ensures
            self.blends(a, b, r),
    {
        proof {
            use_type_invariant(self);
        }
        (self.blend)(a, b, self.factor)
    }

    /// Blends two buffers sample by sample, up to the end of the shorter one.
    pub fn mix(&self, a: &Vec<S>, b: &Vec<S>) -> (out: Vec<S>)
        ensures
            self.mixes(a@, b@, out@),
    {
        let n: usize = if a.len() <= b.len() {
            a.len()
        } else {
            b.len()
        };
        let mut out: Vec<S> = Vec::new();
        let mut i: usize = 0;
        while i < n
            invariant
                i <= n,
                n <= a@.len(),
                n <= b@.len(),
                out@.len() == i,
                forall|j: int| 0 <= j < i ==> self.blends(a@[j], b@[j], #[trigger] out@[j]),
            decreases n - i,
        {
            out.push(self.apply(a[i], b[i]));
            i += 1;
        }
        out
    }
}

} // verus!
