use ecc::errors::EccError;
use ecc::field_element::FieldElement;

fn fe(num: u64, prime: u64) -> FieldElement {
    FieldElement::new(num, prime).unwrap()
}

#[test]
fn test_field_element_add1() {
    let prime = 57;
    let lhs = fe(44, prime);
    let rhs = fe(33, prime);
    let ans = lhs.add(rhs);
    assert!(ans.num == 20);
}

#[test]
fn test_field_element_add2() {
    let prime = 57;
    let one = fe(17, prime);
    let two = fe(42, prime);
    let three = fe(49, prime);
    let ans = one.add(two).add(three);
    assert!(ans.num == 51);
}

#[test]
fn test_field_element_sub1() {
    let prime = 57;
    let lhs = fe(9, prime);
    let rhs = fe(29, prime);
    let ans = lhs.sub(rhs);
    assert!(ans.num == 37);
}

#[test]
fn test_field_element_mul1() {
    let prime = 97;
    let one = fe(95, prime);
    let two = fe(45, prime);
    let three = fe(31, prime);
    let ans = one.mul(two).mul(three);
    assert!(ans.num == 23);
}

#[test]
fn test_field_element_div1() {
    let prime = 19;
    let one = fe(2, prime);
    let two = fe(7, prime);
    let ans = one.div(two);
    assert_eq!(ans.num, 3);
}

#[test]
fn test_field_element_pow1() {
    let prime = 13;
    let a = fe(3, prime);
    let b = fe(1, prime);
    assert!(a.pow(3) == b);
}

#[test]
fn test_new_rejects_residue_beyond_modulus() {
    assert_eq!(FieldElement::new(58, 57), Err(EccError::RangeViolation));
    assert_eq!(FieldElement::new(0, 0), Err(EccError::RangeViolation));
    assert!(FieldElement::new(57, 57).is_ok());
}

#[test]
fn test_closure_into_range() {
    let prime = 31;
    for x in 0..prime {
        for y in 0..prime {
            let a = fe(x, prime);
            let b = fe(y, prime);
            assert!(a.add(b).num < prime);
            assert!(a.sub(b).num < prime);
            assert!(a.mul(b).num < prime);
            if y != 0 {
                assert!(a.div(b).num < prime);
            }
        }
    }
}

#[test]
fn test_add_commutative_concrete() {
    let prime = 13;
    assert_eq!(fe(3, prime).add(fe(11, prime)), fe(11, prime).add(fe(3, prime)));
}

#[test]
fn test_add_associative_concrete() {
    let prime = 13;
    let (a, b, c) = (fe(5, prime), fe(9, prime), fe(12, prime));
    assert_eq!(a.add(b).add(c), a.add(b.add(c)));
}

#[test]
fn test_mul_commutative_concrete() {
    let prime = 13;
    assert_eq!(fe(4, prime).mul(fe(10, prime)), fe(10, prime).mul(fe(4, prime)));
}

#[test]
fn test_mul_associative_concrete() {
    let prime = 13;
    let (a, b, c) = (fe(5, prime), fe(9, prime), fe(12, prime));
    assert_eq!(a.mul(b).mul(c), a.mul(b.mul(c)));
}

#[test]
fn test_div_is_mul_by_fermat_inverse_concrete() {
    let prime = 19;
    let a = fe(2, prime);
    let b = fe(7, prime);
    assert_eq!(a.div(b), a.mul(b.pow(17)));
}

#[test]
fn test_sub_self_is_zero() {
    let prime = 19;
    let a = fe(7, prime);
    assert_eq!(a.sub(a).num, 0);
}

#[test]
fn test_div_self_is_one() {
    let prime = 19;
    let a = fe(7, prime);
    assert_eq!(a.div(a).num, 1);
}

#[test]
fn test_fermat_pow_is_one() {
    let prime = 13;
    for x in 1..prime {
        assert_eq!(fe(x, prime).pow(prime as u32 - 1).num, 1);
    }
}

#[test]
fn test_fermat_pow_large_prime() {
    let prime: u64 = 1_000_000_007;
    let a = fe(123_456_789, prime);
    assert_eq!(a.pow(1_000_000_006).num, 1);
}

#[test]
fn test_pow_exact_values() {
    let prime = 57;
    assert_eq!(fe(44, prime).pow(0).num, 1);
    assert_eq!(fe(44, prime).pow(1).num, 44);
    assert_eq!(fe(44, prime).pow(2).num, (44 * 44) % prime);
}

#[test]
fn test_from_integer_reduces() {
    let prime = 57;
    assert_eq!(FieldElement::from_integer(60, prime).num, 3);
    assert_eq!(FieldElement::from_integer(-1, prime).num, 56);
    assert_eq!(FieldElement::from_integer(-57, prime).num, 0);
    assert_eq!(FieldElement::from_integer(0, prime).num, 0);
}

#[test]
fn test_mixed_integer_operations() {
    let prime = 57;
    let a = fe(44, prime);
    assert_eq!(a.add_int(33).num, 20);
    assert_eq!(a.sub_int(50).num, 51);
    assert_eq!(a.int_sub(3).num, 16);
    assert_eq!(a.mul_int(2).num, 31);
    assert_eq!(a.mul_int(-1).num, 13);
    let b = fe(2, 19);
    assert_eq!(b.div_int(7).num, 3);
    assert_eq!(b.int_div(7).num, 13);
}

#[test]
fn test_eq_int_compares_residue_only() {
    let a = fe(44, 57);
    assert!(a.eq_int(44));
    assert!(!a.eq_int(45));
    assert!(!a.eq_int(-44));
}
