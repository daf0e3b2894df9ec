use aptos_node::curves::{ArksContext, Bls12381Context};
use ark_ec::ProjectiveCurve;
use ark_ff::{One, Zero};

type Arks = ArksContext<
    ark_bls12_381::Fr,
    ark_bls12_381::G1Projective,
    ark_bls12_381::G2Projective,
    ark_bls12_381::Fq12,
>;

#[test]
fn arks_store_starts_empty() {
    let context = Arks::new();
    assert_eq!(context.scalar_count(), 0);
    assert_eq!(context.g1_point_count(), 0);
    assert_eq!(context.g2_point_count(), 0);
    assert_eq!(context.gt_point_count(), 0);
}

#[test]
fn arks_scalar_handles_count_up_and_give_the_scalars_back() {
    let mut context = Arks::new();
    let seven = ark_bls12_381::Fr::from(7u64);
    let nine = ark_bls12_381::Fr::from(9u64);
    assert_eq!(context.add_scalar(seven), 0);
    assert_eq!(context.add_scalar(nine), 1);
    assert_eq!(context.add_scalar(seven), 2);
    assert_eq!(context.scalar_count(), 3);
    assert_eq!(*context.get_scalar(0), seven);
    assert_eq!(*context.get_scalar(1), nine);
    assert_eq!(*context.get_scalar(2), seven);
    assert_ne!(*context.get_scalar(0), *context.get_scalar(1));
}

#[test]
fn arks_stores_are_kept_apart() {
    let mut context = Arks::new();
    let g1 = ark_bls12_381::G1Projective::prime_subgroup_generator();
    let g2 = ark_bls12_381::G2Projective::prime_subgroup_generator();
    let one = ark_bls12_381::Fq12::one();
    assert_eq!(context.add_g1_point(g1), 0);
    assert_eq!(context.add_g2_point(g2), 0);
    assert_eq!(context.add_gt_point(one), 0);
    assert_eq!(context.add_g1_point(ark_bls12_381::G1Projective::zero()), 1);
    assert_eq!(context.scalar_count(), 0);
    assert_eq!(context.g1_point_count(), 2);
    assert_eq!(context.g2_point_count(), 1);
    assert_eq!(context.gt_point_count(), 1);
    assert_eq!(*context.get_g1_point(0), g1);
    assert_eq!(*context.get_g1_point(1), ark_bls12_381::G1Projective::zero());
    assert_eq!(*context.get_g2_point(0), g2);
    assert_eq!(*context.get_gt_point(0), one);
}

#[test]
fn bls_store_starts_empty() {
    let context = Bls12381Context::new();
    assert_eq!(context.scalar_count(), 0);
    assert_eq!(context.g1_point_count(), 0);
    assert_eq!(context.g2_point_count(), 0);
    assert_eq!(context.gt_point_count(), 0);
}

#[test]
fn bls_scalar_handles_count_up_and_give_the_scalars_back() {
    let mut context = Bls12381Context::new();
    let five = bls12_381::Scalar::from(5u64);
    let six = bls12_381::Scalar::from(6u64);
    assert_eq!(context.add_scalar(five), 0);
    assert_eq!(context.add_scalar(six), 1);
    assert_eq!(context.scalar_count(), 2);
    assert_eq!(*context.get_scalar(0), five);
    assert_eq!(*context.get_scalar(1), six);
}

#[test]
fn bls_stores_are_kept_apart() {
    let mut context = Bls12381Context::new();
    let g1 = bls12_381::G1Projective::generator();
    let g2 = bls12_381::G2Projective::generator();
    let gt = bls12_381::pairing(
        &bls12_381::G1Affine::generator(),
        &bls12_381::G2Affine::generator(),
    );
    assert_ne!(gt, bls12_381::Gt::identity());
    assert_eq!(context.add_g1_point(g1), 0);
    assert_eq!(context.add_g1_point(bls12_381::G1Projective::identity()), 1);
    assert_eq!(context.add_g2_point(g2), 0);
    assert_eq!(context.add_gt_point(gt), 0);
    assert_eq!(context.add_gt_point(bls12_381::Gt::identity()), 1);
    assert_eq!(context.scalar_count(), 0);
    assert_eq!(context.g1_point_count(), 2);
    assert_eq!(context.g2_point_count(), 1);
    assert_eq!(context.gt_point_count(), 2);
    assert_eq!(*context.get_g1_point(0), g1);
    assert_eq!(*context.get_g1_point(1), bls12_381::G1Projective::identity());
    assert_eq!(*context.get_g2_point(0), g2);
    assert_eq!(*context.get_gt_point(0), gt);
    assert_eq!(*context.get_gt_point(1), bls12_381::Gt::identity());
}
