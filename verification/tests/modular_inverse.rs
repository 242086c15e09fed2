use curve_group::modular::{checked_residue, residue};
use curve_group::point::Point;
use num_bigint::BigInt;

fn big(n: i64) -> BigInt {
    BigInt::from(n)
}

#[test]
fn inverse_of_two_modulo_seventeen_is_nine() {
    assert_eq!(Point::mod_inverse(&big(2), &big(17)), big(9));
}

#[test]
fn inverse_round_trip_for_every_residue_of_a_prime() {
    let m: BigInt = big(17);
    let mut v: i64 = 1;
    while v < 17 {
        let inv: BigInt = Point::mod_inverse(&big(v), &m);
        assert_eq!((big(v) * &inv) % &m, big(1), "value {}", v);
        assert!(inv >= big(0) && inv < m, "value {}", v);
        v += 1;
    }
}

#[test]
fn inverses_modulo_seventeen_are_the_known_ones() {
    let expected: Vec<i64> = vec![1, 9, 6, 13, 7, 3, 5, 15, 2, 12, 14, 10, 4, 11, 8, 16];
    let mut v: i64 = 1;
    while v < 17 {
        assert_eq!(Point::mod_inverse(&big(v), &big(17)), big(expected[(v - 1) as usize]));
        v += 1;
    }
}

#[test]
fn inverse_of_a_value_above_the_modulus() {
    assert_eq!(Point::mod_inverse(&big(19), &big(17)), big(9));
    assert_eq!(Point::mod_inverse(&big(18), &big(17)), big(1));
}

#[test]
fn inverse_modulo_a_composite_of_a_coprime_value() {
    // 7 * 13 = 91 = 3 * 30 + 1
    assert_eq!(Point::mod_inverse(&big(7), &big(30)), big(13));
}

#[test]
fn inverse_of_one_is_one() {
    assert_eq!(Point::mod_inverse(&big(1), &big(17)), big(1));
    assert_eq!(Point::mod_inverse(&big(1), &big(2)), big(1));
}

#[test]
fn inverse_of_zero_is_zero() {
    assert_eq!(Point::mod_inverse(&big(0), &big(17)), big(0));
}

#[test]
fn a_value_with_a_common_divisor_gets_a_number_that_is_no_inverse() {
    let inv: BigInt = Point::mod_inverse(&big(6), &big(9));
    assert_eq!(inv, big(8));
    assert_ne!((big(6) * inv) % big(9), big(1));
    assert_eq!(Point::mod_inverse(&big(4), &big(8)), big(1));
    assert_eq!(Point::mod_inverse(&big(17), &big(17)), big(1));
}

#[test]
fn inverse_of_a_negative_value() {
    // -7 * 12 = -84 = -5 * 17 + 1
    assert_eq!(Point::mod_inverse(&big(-7), &big(17)), big(12));
    // -3 * 11 = -33 = -2 * 17 + 1
    assert_eq!(Point::mod_inverse(&big(-3), &big(17)), big(11));
    assert_eq!(Point::mod_inverse(&big(-2), &big(17)), big(8));
    assert_eq!(Point::mod_inverse(&big(-1), &big(17)), big(16));
    assert_eq!(Point::mod_inverse(&big(-35), &big(12)), big(1));
}

#[test]
fn inverse_round_trip_for_every_negative_value() {
    let m: BigInt = big(17);
    let mut v: i64 = -40;
    while v < 0 {
        if v % 17 != 0 {
            let inv: BigInt = Point::mod_inverse(&big(v), &m);
            assert_eq!(residue(&(big(v) * &inv), &m), big(1), "value {}", v);
            assert!(inv >= big(0) && inv < m, "value {}", v);
        }
        v += 1;
    }
}

#[test]
fn a_negative_value_has_the_inverse_of_its_residue() {
    let mut v: i64 = -40;
    while v < 0 {
        let expected: BigInt = Point::mod_inverse(&residue(&big(v), &big(17)), &big(17));
        assert_eq!(Point::mod_inverse(&big(v), &big(17)), expected, "value {}", v);
        v += 1;
    }
}

#[test]
fn a_negative_value_with_a_common_divisor_gets_no_inverse() {
    assert_eq!(Point::mod_inverse(&big(-17), &big(17)), big(0));
    // -6 * 1 = -6 = -1 * 9 + 3, and 3 is the greatest common divisor of 6 and 9
    let inv: BigInt = Point::mod_inverse(&big(-6), &big(9));
    assert_eq!(inv, big(1));
    assert_eq!(residue(&(big(-6) * inv), &big(9)), big(3));
}

#[test]
fn inverse_of_a_negative_value_modulo_a_large_prime() {
    let p: BigInt = (BigInt::from(1) << 255usize) - BigInt::from(19);
    let v: BigInt = "-123456789123456789123456789".parse().unwrap();
    let expected: BigInt =
        "48233323613506697398907659880768395171575364481050791485472343971451353980869"
            .parse()
            .unwrap();
    let inv: BigInt = Point::mod_inverse(&v, &p);
    assert_eq!(inv, expected);
    assert_eq!(residue(&(v * inv), &p), big(1));
}

#[test]
fn the_result_lies_below_the_modulus_for_every_value() {
    let mut v: i64 = -40;
    while v <= 40 {
        let mut m: i64 = 2;
        while m <= 20 {
            let inv: BigInt = Point::mod_inverse(&big(v), &big(m));
            assert!(inv >= big(0) && inv < big(m), "value {} modulo {}", v, m);
            m += 1;
        }
        v += 1;
    }
}

#[test]
fn the_product_with_the_value_is_congruent_to_the_common_divisor() {
    // 6 * 8 = 48 = 5 * 9 + 3, and 3 is the greatest common divisor of 6 and 9
    assert_eq!((big(6) * Point::mod_inverse(&big(6), &big(9))) % big(9), big(3));
    // 4 * 1 = 4, the greatest common divisor of 4 and 8
    assert_eq!((big(4) * Point::mod_inverse(&big(4), &big(8))) % big(8), big(4));
}

#[test]
fn modulus_one_is_outside_the_range_claim() {
    assert_eq!(Point::mod_inverse(&big(1), &big(1)), big(1));
    assert_eq!(Point::mod_inverse(&big(5), &big(1)), big(0));
    assert_eq!(Point::mod_inverse(&big(-1), &big(1)), big(0));
}

#[test]
fn a_modulus_that_is_not_positive_is_taken_as_it_is() {
    assert_eq!(Point::mod_inverse(&big(3), &big(-17)), big(6));
    assert_eq!(Point::mod_inverse(&big(10), &big(0)), big(1));
    assert_eq!(Point::mod_inverse(&big(-3), &big(-17)), big(6));
    assert_eq!(Point::mod_inverse(&big(-3), &big(0)), big(1));
}

#[test]
fn checked_residue_asks_for_a_positive_modulus() {
    assert_eq!(checked_residue(&big(-6), &big(17)), Some(big(11)));
    assert_eq!(checked_residue(&big(35), &big(17)), Some(big(1)));
    assert_eq!(checked_residue(&big(35), &big(0)), None);
    assert_eq!(checked_residue(&big(35), &big(-17)), None);
}

#[test]
fn inverse_modulo_a_large_prime() {
    let p: BigInt = (BigInt::from(1) << 255usize) - BigInt::from(19);
    let v: BigInt = "123456789123456789123456789".parse().unwrap();
    let expected: BigInt =
        "9662721005151400312877832623575558755059627851769490534256448032505210839080"
            .parse()
            .unwrap();
    let inv: BigInt = Point::mod_inverse(&v, &p);
    assert_eq!(inv, expected);
    assert_eq!((v * inv) % p, big(1));
}

#[test]
fn residue_of_a_negative_number_is_moved_up() {
    assert_eq!(residue(&big(-6), &big(17)), big(11));
    assert_eq!(residue(&big(-40), &big(17)), big(11));
    assert_eq!(residue(&big(-17), &big(17)), big(0));
    assert_eq!(residue(&big(-1), &big(1)), big(0));
}

#[test]
fn residue_of_a_non_negative_number_is_the_remainder() {
    assert_eq!(residue(&big(0), &big(17)), big(0));
    assert_eq!(residue(&big(16), &big(17)), big(16));
    assert_eq!(residue(&big(17), &big(17)), big(0));
    assert_eq!(residue(&big(35), &big(17)), big(1));
}
