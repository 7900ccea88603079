use lbm::geometry::Direction;
use lbm::D2Q9;
use lbm::lattice::{DiagonalDistribution, DirectDistribution};

#[test]
fn opposite() {
    assert_eq!(D2Q9::C.opposite(), D2Q9::C);
    assert_eq!(D2Q9::E.opposite(), D2Q9::W);
    assert_eq!(D2Q9::N.opposite(), D2Q9::S);
    assert_eq!(D2Q9::W.opposite(), D2Q9::E);
    assert_eq!(D2Q9::S.opposite(), D2Q9::N);
    assert_eq!(D2Q9::NE.opposite(), D2Q9::SW);
    assert_eq!(D2Q9::NW.opposite(), D2Q9::SE);
    assert_eq!(D2Q9::SW.opposite(), D2Q9::NE);
    assert_eq!(D2Q9::SE.opposite(), D2Q9::NW);
}

#[test]
fn velocities() {
    assert_eq!(D2Q9::C.direction().array(), [0, 0]);
    assert_eq!(D2Q9::E.direction().array(), [1, 0]);
    assert_eq!(D2Q9::N.direction().array(), [0, 1]);
    assert_eq!(D2Q9::W.direction().array(), [-1, 0]);
    assert_eq!(D2Q9::S.direction().array(), [0, -1]);
    assert_eq!(D2Q9::NE.direction().array(), [1, 1]);
    assert_eq!(D2Q9::NW.direction().array(), [-1, 1]);
    assert_eq!(D2Q9::SW.direction().array(), [-1, -1]);
    assert_eq!(D2Q9::SE.direction().array(), [1, -1]);
}

#[test]
fn values() {
    let mut c = 0;
    for i in D2Q9::all() {
        let v = i.value();
        assert_eq!(v, c);
        let j = D2Q9::new(v);
        assert_eq!(i, j);
        c += 1;
    }
    assert_eq!(D2Q9::size(), D2Q9::all().len());
}

#[test]
fn opposite_is_an_involution_and_weights_sum_to_one() {
    let mut total: u32 = 0;
    for n in D2Q9::all() {
        assert_eq!(n.opposite().opposite(), n);
        total += n.weight36() as u32;
    }
    assert_eq!(total, lbm::lattice::WEIGHT_SCALE as u32);
    let sum: f64 = D2Q9::all()
        .iter()
        .map(|n| n.weight36() as f64 / 36.0)
        .sum();
    assert!((sum - 1.0).abs() < 1e-15);
    assert_eq!(D2Q9::center(), D2Q9::C);
    assert_eq!(D2Q9::center().opposite(), D2Q9::C);
}

#[test]
fn weights_by_family() {
    assert_eq!(D2Q9::C.weight36(), 16);
    for n in D2Q9::direct() {
        assert_eq!(n.weight36(), 4);
    }
    for n in D2Q9::diagonal() {
        assert_eq!(n.weight36(), 1);
    }
    assert_eq!(D2Q9::direct(), vec![D2Q9::E, D2Q9::N, D2Q9::W, D2Q9::S]);
    assert_eq!(D2Q9::diagonal(), vec![D2Q9::NE, D2Q9::NW, D2Q9::SW, D2Q9::SE]);
}

#[test]
fn from_direction_inverts_direction() {
    for n in D2Q9::all() {
        assert_eq!(D2Q9::from_direction(n.direction()), Some(n));
    }
    assert_eq!(D2Q9::from_direction(Direction::NW), Some(D2Q9::NW));
}
