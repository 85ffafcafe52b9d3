use rand::{SeedableRng, StdRng};
use remacs::heap::LispHeap;
use remacs::numbers::{
    floatp, integer_or_marker_p, integerp, natnump, number_or_marker_p, numberp, random_accept, random_draw,
    random_from_value, random_seed, string_seed, RandomSeeding,
};
use remacs::tag::LispObject;

#[test]
fn number_predicates() {
    let five = LispObject::from_fixnum(5);
    let minus = LispObject::from_fixnum(-5);
    let float = LispObject(0x107);
    assert!(integerp(five) && integerp(minus) && !integerp(float));
    assert!(natnump(five) && !natnump(minus));
    assert!(floatp(float) && !floatp(five));
    assert!(numberp(float) && numberp(minus) && !numberp(LispObject::constant_nil()));
    assert!(integer_or_marker_p(LispObject(0x105), true));
    assert!(!integer_or_marker_p(float, false));
    assert!(number_or_marker_p(float, false));
    assert!(!number_or_marker_p(LispObject::constant_t(), false));
}

#[test]
fn random_remainders() {
    assert_eq!(random_accept(17, 5), Some(2));
    assert_eq!(random_accept(-17, 5), Some(2));
    assert_eq!(random_accept(0, 1), Some(0));
    // A draw near the top of the range is rejected.
    assert_eq!(random_accept(i64::MAX, 10), None);
    assert_eq!(random_accept(0x3fff_ffff_ffff_fff0, 10), Some(8));
    assert_eq!(random_accept(0x3fff_ffff_ffff_fffc, 10), None);
}

#[test]
fn random_values() {
    let ten = LispObject::from_fixnum(10);
    assert_eq!(random_from_value(23, ten), Some(LispObject::from_fixnum(3)));
    assert_eq!(random_from_value(i64::MIN, ten), None);
    assert_eq!(random_from_value(i64::MAX, ten), None);
    // Any other limit gives the draw itself, reduced into the fixnum range.
    assert_eq!(random_from_value(23, LispObject::constant_nil()), Some(LispObject::from_fixnum(23)));
    assert_eq!(random_from_value(-4, LispObject::from_fixnum(-3)), Some(LispObject::from_fixnum(-4)));
    assert_eq!(
        random_from_value(0x2000_0000_0000_0000, LispObject::constant_nil()),
        Some(LispObject::from_fixnum(-0x2000_0000_0000_0000))
    );
}

#[test]
fn random_draws_stay_below_the_limit() {
    let seed: &[usize] = &[1, 2, 3, 4];
    let mut rng: StdRng = SeedableRng::from_seed(seed);
    let limit = LispObject::from_fixnum(7);
    let mut got = 0;
    for _ in 0..200 {
        if let Some(v) = random_draw(&mut rng, limit) {
            let n = v.as_fixnum().unwrap();
            assert!(0 <= n && n < 7);
            got += 1;
        }
    }
    assert!(got > 0);
}

#[test]
fn reseeding_from_a_string_repeats_the_draws() {
    let mut h = LispHeap::new();
    let s = h.make_string(b"seed".to_vec(), 4);
    assert_eq!(string_seed(&h, s), vec![115, 101, 101, 100]);
    let seed: &[usize] = &[9];
    let mut a: StdRng = SeedableRng::from_seed(seed);
    let mut b: StdRng = SeedableRng::from_seed(&[5usize][..]);
    assert_eq!(random_seed(&mut a, &h, s), RandomSeeding::FromString);
    assert_eq!(random_seed(&mut b, &h, s), RandomSeeding::FromString);
    let nil = LispObject::constant_nil();
    for _ in 0..5 {
        assert_eq!(random_draw(&mut a, nil), random_draw(&mut b, nil));
    }
    assert_eq!(random_seed(&mut a, &h, LispObject::from_fixnum(3)), RandomSeeding::Kept);
    assert_eq!(random_seed(&mut a, &h, LispObject::constant_t()), RandomSeeding::System);
}
