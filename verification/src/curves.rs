//! Handle stores for the elements of BLS12-381 that a computation holds:
//! scalars and points go in, handles come out, and a handle gives its
//! element back for as long as the store lives.

use vstd::prelude::*;

verus! {

/// `bls12_381::Scalar`, an element of the scalar field. Nothing is claimed
/// of it: the stores only keep it and hand it back.
#[verifier::external_type_specification]
#[verifier::external_body]
pub struct ExScalar(bls12_381::Scalar);

/// `bls12_381::G1Projective`, a point of G1 in projective coordinates.
/// Nothing is claimed of it.
#[verifier::external_type_specification]
#[verifier::external_body]
pub struct ExG1Projective(bls12_381::G1Projective);

/// `bls12_381::G2Projective`, a point of G2 in projective coordinates.
/// Nothing is claimed of it.
#[verifier::external_type_specification]
#[verifier::external_body]
pub struct ExG2Projective(bls12_381::G2Projective);

/// `bls12_381::Gt`, an element of the pairing's target group. Nothing is
/// claimed of it.
#[verifier::external_type_specification]
#[verifier::external_body]
pub struct ExGt(bls12_381::Gt);

/// A store of field and group elements of any one implementation of the
/// curve: `Fr` for the scalars, `G1` and `G2` for the points of the two
/// source groups, `Gt` for the elements of the target group.
pub struct ArksContext<Fr, G1, G2, Gt> {
    fr_store: Vec<Fr>,
    g1_point_store: Vec<G1>,
    g2_point_store: Vec<G2>,
    gt_point_store: Vec<Gt>,
}

impl<Fr, G1, G2, Gt> ArksContext<Fr, G1, G2, Gt> {
    /// The scalars that the store holds, in the order of their handles.
    pub closed spec fn scalars(&self) -> Seq<Fr> {
        self.fr_store@
    }

    /// The points of G1 that the store holds, in the order of their handles.
    pub closed spec fn g1_points(&self) -> Seq<G1> {
        self.g1_point_store@
    }

    /// The points of G2 that the store holds, in the order of their handles.
    pub closed spec fn g2_points(&self) -> Seq<G2> {
        self.g2_point_store@
    }

    /// The elements of Gt that the store holds, in the order of their handles.
    pub closed spec fn gt_points(&self) -> Seq<Gt> {
        self.gt_point_store@
    }

    pub fn new() -> (context: Self)
        ensures
            context.scalars() == Seq::<Fr>::empty(),
            context.g1_points() == Seq::<G1>::empty(),
            context.g2_points() == Seq::<G2>::empty(),
            context.gt_points() == Seq::<Gt>::empty(),
    {
        Self {
            fr_store: Vec::new(),
            g1_point_store: Vec::new(),
            g2_point_store: Vec::new(),
            gt_point_store: Vec::new(),
        }
    }

    /// Takes the scalar into the store; its handle is the number of
    /// those that the store held before.
    pub fn add_scalar(&mut self, scalar: Fr) -> (handle: usize)
        ensures
            handle == old(self).scalars().len(),
            final(self).scalars() == old(self).scalars().push(scalar),
            final(self).g1_points() == old(self).g1_points(),
            final(self).g2_points() == old(self).g2_points(),
            final(self).gt_points() == old(self).gt_points(),
    {
        let ret = self.fr_store.len();
        self.fr_store.push(scalar);
        ret
    }

    /// The scalar that `handle` names. A handle that the store never
    /// gave out is not accepted.
    pub fn get_scalar(&self, handle: usize) -> (scalar: &Fr)
        requires
            handle < self.scalars().len(),
        ensures
            *scalar == self.scalars()[handle as int],
    {
        &self.fr_store[handle]
    }

    /// Number of scalars in the store: the handles below it are
    /// the ones given out.
    pub fn scalar_count(&self) -> (count: usize)
        ensures
            count == self.scalars().len(),
    {
        self.fr_store.len()
    }

    /// Takes the point of G1 into the store; its handle is the number of
    /// those that the store held before.
    pub fn add_g1_point(&mut self, p0: G1) -> (handle: usize)
        ensures
            handle == old(self).g1_points().len(),
            final(self).g1_points() == old(self).g1_points().push(p0),
            final(self).scalars() == old(self).scalars(),
            final(self).g2_points() == old(self).g2_points(),
            final(self).gt_points() == old(self).gt_points(),
    {
        let ret = self.g1_point_store.len();
        self.g1_point_store.push(p0);
        ret
    }

    /// The point of G1 that `handle` names. A handle that the store never
    /// gave out is not accepted.
    pub fn get_g1_point(&self, handle: usize) -> (p0: &G1)
        requires
            handle < self.g1_points().len(),
        ensures
            *p0 == self.g1_points()[handle as int],
    {
        &self.g1_point_store[handle]
    }

    /// Number of points of G1 in the store: the handles below it are
    /// the ones given out.
    pub fn g1_point_count(&self) -> (count: usize)
        ensures
            count == self.g1_points().len(),
    {
        self.g1_point_store.len()
    }

    /// Takes the point of G2 into the store; its handle is the number of
    /// those that the store held before.
    pub fn add_g2_point(&mut self, p0: G2) -> (handle: usize)
        ensures
            handle == old(self).g2_points().len(),
            final(self).g2_points() == old(self).g2_points().push(p0),
            final(self).scalars() == old(self).scalars(),
            final(self).g1_points() == old(self).g1_points(),
            final(self).gt_points() == old(self).gt_points(),
    {
        let ret = self.g2_point_store.len();
        self.g2_point_store.push(p0);
        ret
    }

    /// The point of G2 that `handle` names. A handle that the store never
    /// gave out is not accepted.
    pub fn get_g2_point(&self, handle: usize) -> (p0: &G2)
        requires
            handle < self.g2_points().len(),
        ensures
            *p0 == self.g2_points()[handle as int],
    {
        &self.g2_point_store[handle]
    }

    /// Number of points of G2 in the store: the handles below it are
    /// the ones given out.
    pub fn g2_point_count(&self) -> (count: usize)
        ensures
            count == self.g2_points().len(),
    {
        self.g2_point_store.len()
    }

    /// Takes the element of Gt into the store; its handle is the number of
    /// those that the store held before.
    pub fn add_gt_point(&mut self, point: Gt) -> (handle: usize)
        ensures
            handle == old(self).gt_points().len(),
            final(self).gt_points() == old(self).gt_points().push(point),
            final(self).scalars() == old(self).scalars(),
            final(self).g1_points() == old(self).g1_points(),
            final(self).g2_points() == old(self).g2_points(),
    {
        let ret = self.gt_point_store.len();
        self.gt_point_store.push(point);
        ret
    }

    /// The element of Gt that `handle` names. A handle that the store never
    /// gave out is not accepted.
    pub fn get_gt_point(&self, handle: usize) -> (point: &Gt)
        requires
            handle < self.gt_points().len(),
        ensures
            *point == self.gt_points()[handle as int],
    {
        &self.gt_point_store[handle]
    }

    /// Number of elements of Gt in the store: the handles below it are
    /// the ones given out.
    pub fn gt_point_count(&self) -> (count: usize)
        ensures
            count == self.gt_points().len(),
    {
        self.gt_point_store.len()
    }
}

/// A store of the elements of the `bls12_381` implementation of the curve.
pub struct Bls12381Context {
    scalar_store: Vec<bls12_381::Scalar>,
    g1_point_store: Vec<bls12_381::G1Projective>,
    g2_point_store: Vec<bls12_381::G2Projective>,
    gt_point_store: Vec<bls12_381::Gt>,
}

impl Bls12381Context {
    /// The scalars that the store holds, in the order of their handles.
    pub closed spec fn scalars(&self) -> Seq<bls12_381::Scalar> {
        self.scalar_store@
    }

    /// The points of G1 that the store holds, in the order of their handles.
    pub closed spec fn g1_points(&self) -> Seq<bls12_381::G1Projective> {
        self.g1_point_store@
    }

    /// The points of G2 that the store holds, in the order of their handles.
    pub closed spec fn g2_points(&self) -> Seq<bls12_381::G2Projective> {
        self.g2_point_store@
    }

    /// The elements of Gt that the store holds, in the order of their handles.
    pub closed spec fn gt_points(&self) -> Seq<bls12_381::Gt> {
        self.gt_point_store@
    }

    pub fn new() -> (context: Self)
        ensures
            context.scalars() == Seq::<bls12_381::Scalar>::empty(),
            context.g1_points() == Seq::<bls12_381::G1Projective>::empty(),
            context.g2_points() == Seq::<bls12_381::G2Projective>::empty(),
            context.gt_points() == Seq::<bls12_381::Gt>::empty(),
    {
        Self {
            scalar_store: Vec::new(),
            g1_point_store: Vec::new(),
            g2_point_store: Vec::new(),
            gt_point_store: Vec::new(),
        }
    }

    /// Takes the scalar into the store; its handle is the number of
    /// those that the store held before.
    pub fn add_scalar(&mut self, scalar: bls12_381::Scalar) -> (handle: usize)
        ensures
            handle == old(self).scalars().len(),
            final(self).scalars() == old(self).scalars().push(scalar),
            final(self).g1_points() == old(self).g1_points(),
            final(self).g2_points() == old(self).g2_points(),
            final(self).gt_points() == old(self).gt_points(),
    {
        let ret = self.scalar_store.len();
        self.scalar_store.push(scalar);
        ret
    }

    /// The scalar that `handle` names. A handle that the store never
    /// gave out is not accepted.
    pub fn get_scalar(&self, handle: usize) -> (scalar: &bls12_381::Scalar)
        requires
            handle < self.scalars().len(),
        ensures
            *scalar == self.scalars()[handle as int],
    {
        &self.scalar_store[handle]
    }

    /// Number of scalars in the store: the handles below it are
    /// the ones given out.
    pub fn scalar_count(&self) -> (count: usize)
        ensures
            count == self.scalars().len(),
    {
        self.scalar_store.len()
    }

    /// Takes the point of G1 into the store; its handle is the number of
    /// those that the store held before.
    pub fn add_g1_point(&mut self, p0: bls12_381::G1Projective) -> (handle: usize)
        ensures
            handle == old(self).g1_points().len(),
            final(self).g1_points() == old(self).g1_points().push(p0),
            final(self).scalars() == old(self).scalars(),
            final(self).g2_points() == old(self).g2_points(),
            final(self).gt_points() == old(self).gt_points(),
    {
        let ret = self.g1_point_store.len();
        self.g1_point_store.push(p0);
        ret
    }

    /// The point of G1 that `handle` names. A handle that the store never
    /// gave out is not accepted.
    pub fn get_g1_point(&self, handle: usize) -> (p0: &bls12_381::G1Projective)
        requires
            handle < self.g1_points().len(),
        ensures
            *p0 == self.g1_points()[handle as int],
    {
        &self.g1_point_store[handle]
    }

    /// Number of points of G1 in the store: the handles below it are
    /// the ones given out.
    pub fn g1_point_count(&self) -> (count: usize)
        ensures
            count == self.g1_points().len(),
    {
        self.g1_point_store.len()
    }

    /// Takes the point of G2 into the store; its handle is the number of
    /// those that the store held before.
    pub fn add_g2_point(&mut self, p0: bls12_381::G2Projective) -> (handle: usize)
        ensures
            handle == old(self).g2_points().len(),
            final(self).g2_points() == old(self).g2_points().push(p0),
            final(self).scalars() == old(self).scalars(),
            final(self).g1_points() == old(self).g1_points(),
            final(self).gt_points() == old(self).gt_points(),
    {
        let ret = self.g2_point_store.len();
        self.g2_point_store.push(p0);
        ret
    }

    /// The point of G2 that `handle` names. A handle that the store never
    /// gave out is not accepted.
    pub fn get_g2_point(&self, handle: usize) -> (p0: &bls12_381::G2Projective)
        requires
            handle < self.g2_points().len(),
        ensures
            *p0 == self.g2_points()[handle as int],
    {
        &self.g2_point_store[handle]
    }

    /// Number of points of G2 in the store: the handles below it are
    /// the ones given out.
    pub fn g2_point_count(&self) -> (count: usize)
        ensures
            count == self.g2_points().len(),
    {
        self.g2_point_store.len()
    }

    /// Takes the element of Gt into the store; its handle is the number of
    /// those that the store held before.
    pub fn add_gt_point(&mut self, point: bls12_381::Gt) -> (handle: usize)
        ensures
            handle == old(self).gt_points().len(),
            final(self).gt_points() == old(self).gt_points().push(point),
            final(self).scalars() == old(self).scalars(),
            final(self).g1_points() == old(self).g1_points(),
            final(self).g2_points() == old(self).g2_points(),
    {
        let ret = self.gt_point_store.len();
        self.gt_point_store.push(point);
        ret
    }

    /// The element of Gt that `handle` names. A handle that the store never
    /// gave out is not accepted.
    pub fn get_gt_point(&self, handle: usize) -> (point: &bls12_381::Gt)
        requires
            handle < self.gt_points().len(),
        ensures
            *point == self.gt_points()[handle as int],
    {
        &self.gt_point_store[handle]
    }

    /// Number of elements of Gt in the store: the handles below it are
    /// the ones given out.
    pub fn gt_point_count(&self) -> (count: usize)
        ensures
            count == self.gt_points().len(),
    {
        self.gt_point_store.len()
    }
}

} // verus!
