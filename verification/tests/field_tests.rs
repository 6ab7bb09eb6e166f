use range256::field::{Fp, P};
use range256::multiplicity::MultiplicityTable;

#[test]
fn test_field_add_wraps_at_modulus() {
    let a = Fp::new(P - 1);
    let b = Fp::new(1);
    assert_eq!(a.add(b).value(), 0);
    assert_eq!(Fp::new(100).add(Fp::new(28)).value(), 128);
}

#[test]
fn test_field_sub_wraps_below_zero() {
    let a = Fp::new(5);
    let b = Fp::new(9);
    assert_eq!(a.sub(b).value(), P - 4);
    assert_eq!(b.sub(a).value(), 4);
    assert_eq!(a.sub(a).value(), 0);
}

#[test]
fn test_field_mul_exact() {
    assert_eq!(Fp::new(1000).mul(Fp::new(1000)).value(), 1_000_000);
    // (2^30) * 2 = 2^31 = P + 1, so it reduces to 1
    assert_eq!(Fp::new(0x4000_0000).mul(Fp::new(2)).value(), 1);
    assert_eq!(Fp::new(0).mul(Fp::new(12345)).value(), 0);
}

#[test]
fn test_field_from_u32_reduces() {
    assert_eq!(Fp::from_u32_reduced(P).value(), 0);
    assert_eq!(Fp::from_u32_reduced(P + 5).value(), 5);
    assert_eq!(Fp::from_u32_reduced(42).value(), 42);
}

#[test]
fn test_field_inverse_multiplies_to_one() {
    for x in [2u32, 3, 5, 255, 256, 65537, P - 1] {
        let e = Fp::new(x);
        let y = e.inv().expect("nonzero element must invert");
        assert_eq!(e.mul(y).value(), 1);
    }
    assert!(Fp::new(0).inv().is_none());
    assert_eq!(Fp::new(1).inv().expect("one inverts").value(), 1);
}

#[test]
fn test_multiplicity_table_counts() {
    let mut table = MultiplicityTable::new();
    for v in 0..256u32 {
        assert_eq!(table.get(v), 0);
    }
    table.increment(7);
    table.increment(7);
    table.increment(255);
    assert_eq!(table.get(7), 2);
    assert_eq!(table.get(255), 1);
    assert_eq!(table.get(0), 0);
    let snapshot = table.finalize();
    assert_eq!(snapshot.len(), 256);
    assert_eq!(snapshot[7], 2);
    assert_eq!(snapshot[255], 1);
}
