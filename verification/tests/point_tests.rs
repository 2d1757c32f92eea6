use ecc::errors::EccError;
use ecc::field_element::FieldElement;
use ecc::point::{NewPoints, Points};

fn fe(num: u64, prime: u64) -> FieldElement {
    FieldElement::new(num, prime).unwrap()
}

fn fe_point(
    x: u64,
    y: u64,
    a: u64,
    b: u64,
    prime: u64,
) -> Points<FieldElement> {
    Points::new(fe(x, prime), fe(y, prime), fe(a, prime), fe(b, prime)).unwrap()
}

#[test]
fn test_point_creation() {
    let point = Points::<i128>::new(-1, -1, 5, 7).unwrap();
    assert!(matches!(
        point,
        Points::Point {
            x: -1,
            y: -1,
            a: 5,
            b: 7
        }
    ));
}

#[test]
fn test_inf_point_creation() {
    let point = Points::<i128>::inf(5, 7);
    assert!(matches!(point, Points::Inf { a: 5, b: 7 }));
}

#[test]
#[should_panic]
fn test_fail_point_creation() {
    let _ = Points::<i128>::new(-1, -2, 5, 7).unwrap();
}

#[test]
fn test_add1() {
    let a = Points::<i128>::inf(5, 7);
    let b = Points::<i128>::new(2, 5, 5, 7).unwrap();
    assert!(matches!(
        a.add(b),
        Points::Point {
            x: 2,
            y: 5,
            a: 5,
            b: 7
        }
    ));
}

#[test]
fn test_add2() {
    let a = Points::<i128>::inf(5, 7);
    let b = Points::<i128>::new(2, 5, 5, 7).unwrap();
    assert!(matches!(
        b.add(a),
        Points::Point {
            x: 2,
            y: 5,
            a: 5,
            b: 7
        }
    ));
}

#[test]
fn test_add3() {
    let a = Points::<i128>::new(-1, -1, 5, 7).unwrap();
    let b = Points::<i128>::new(-1, 1, 5, 7).unwrap();
    assert!(matches!(a.add(b), Points::Inf { a: 5, b: 7 }));
}

#[test]
fn test_add4() {
    let a = Points::<i128>::new(3, 7, 5, 7).unwrap();
    let b = Points::<i128>::new(-1, -1, 5, 7).unwrap();
    assert!(matches!(
        a.add(b),
        Points::Point {
            x: 2,
            y: -5,
            a: 5,
            b: 7
        }
    ));
}

#[test]
fn test_add5() {
    let a = Points::<i128>::new(-1, -1, 5, 7).unwrap();
    let b = Points::<i128>::new(-1, -1, 5, 7).unwrap();
    assert!(matches!(
        a.add(b),
        Points::Point {
            x: 18,
            y: 77,
            a: 5,
            b: 7
        }
    ));
}

#[test]
fn test_field_elem_add1() {
    let prime = 223;
    let a = fe(0, prime);
    let b = fe(7, prime);
    let x1 = fe(192, prime);
    let y1 = fe(105, prime);
    let x2 = fe(17, prime);
    let y2 = fe(56, prime);
    let p1 = Points::new(x1, y1, a, b).unwrap();
    let p2 = Points::new(x2, y2, a, b).unwrap();
    assert_eq!(
        p1.add(p2),
        Points::Point {
            x: fe(170, prime),
            y: fe(142, prime),
            a: fe(0, prime),
            b: fe(7, prime)
        }
    );
}

#[test]
fn test_accessors_return_curve_coefficients() {
    let p = Points::<i128>::new(3, 7, 5, 7).unwrap();
    assert_eq!(*p.a(), 5);
    assert_eq!(*p.b(), 7);
    let q = Points::<i128>::inf(5, 7);
    assert_eq!(*q.a(), 5);
    assert_eq!(*q.b(), 7);
}

#[test]
fn test_construction_rejection_variants() {
    assert_eq!(
        Points::<i128>::new(2, 4, 5, 7),
        Err(EccError::CurveMembershipViolation)
    );
    let prime = 223;
    assert_eq!(
        Points::new(fe(200, prime), fe(119, prime), fe(0, prime), fe(7, prime)),
        Err(EccError::CurveMembershipViolation)
    );
}

#[test]
fn test_construction_rejects_mixed_moduli() {
    assert_eq!(
        Points::new(fe(0, 223), fe(0, 57), fe(0, 223), fe(7, 223)),
        Err(EccError::IncompatibleOperands)
    );
}

#[test]
fn test_field_identity_laws() {
    let prime = 223;
    let p = fe_point(192, 105, 0, 7, prime);
    let inf = Points::inf(fe(0, prime), fe(7, prime));
    assert_eq!(inf.add(p), p);
    assert_eq!(p.add(inf), p);
}

#[test]
fn test_field_inverse_law() {
    let prime = 223;
    let p = fe_point(192, 105, 0, 7, prime);
    let q = fe_point(192, 223 - 105, 0, 7, prime);
    assert_eq!(p.add(q), Points::Inf { a: fe(0, prime), b: fe(7, prime) });
}

#[test]
fn test_int_double_with_zero_ordinate() {
    let p = Points::<i128>::new(3, 0, 0, -27).unwrap();
    assert!(matches!(p.add(p), Points::Inf { a: 0, b: -27 }));
}

#[test]
fn test_field_double_with_zero_ordinate() {
    let prime = 7;
    let p = fe_point(1, 0, 0, 6, prime);
    assert_eq!(p.add(p), Points::Inf { a: fe(0, prime), b: fe(6, prime) });
}

#[test]
fn test_field_doubling() {
    // 2 * (192, 105) on the curve y^2 = x^3 + 7 over F_223.
    let prime = 223;
    let p = fe_point(192, 105, 0, 7, prime);
    let d = p.add(p);
    match d {
        Points::Point { x, y, .. } => {
            // The doubling must itself land on the curve.
            assert!(Points::new(x, y, fe(0, prime), fe(7, prime)).is_ok());
        }
        Points::Inf { .. } => panic!("doubling of a point with nonzero ordinate"),
    }
}

#[test]
fn test_int_associativity_sampled() {
    let a = Points::<i128>::new(3, 7, 5, 7).unwrap();
    let b = Points::<i128>::new(-1, -1, 5, 7).unwrap();
    let c = Points::<i128>::new(2, 5, 5, 7).unwrap();
    assert_eq!(a.add(b).add(c), a.add(b.add(c)));
}

#[test]
fn test_field_associativity_sampled() {
    let prime = 223;
    let a = fe_point(192, 105, 0, 7, prime);
    let b = fe_point(17, 56, 0, 7, prime);
    let c = fe_point(1, 193, 0, 7, prime);
    assert_eq!(a.add(b).add(c), a.add(b.add(c)));
}

#[test]
fn test_render() {
    let p = Points::<i128>::new(-1, -1, 5, 7).unwrap();
    assert_eq!(p.render(), "Point(-1, -1)_5_7");
    let q = Points::<i128>::new(18, 77, 5, 7).unwrap();
    assert_eq!(q.render(), "Point(18, 77)_5_7");
    let inf = Points::<i128>::inf(5, 7);
    assert_eq!(inf.render(), "Point(infinity)");
}
