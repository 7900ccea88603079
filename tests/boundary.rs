use lbm::boundary::{reflect, Condition, Handler, Type};
use lbm::geometry::{Circle, Plane, Shape};
use lbm::grid::X;
use lbm::D2Q9;

fn transfer(from: f64, to: f64, density: f64, accel: f64, w36: u8) -> (f64, f64) {
    let t = density * accel * (w36 as f64 / 36.0);
    if from - t > 0. {
        (from - t, to + t)
    } else {
        (from, to)
    }
}

fn left_edge() -> Shape {
    Shape::Plane(Plane::new((1, 0), (0, 0)))
}

fn bottom_edge() -> Shape {
    Shape::Plane(Plane::new((0, 1), (0, 0)))
}

fn sample() -> Vec<f64> {
    vec![0.4, 0.11, 0.12, 0.13, 0.14, 0.021, 0.022, 0.023, 0.024]
}

fn streamed_sample() -> Vec<f64> {
    vec![1., 2., 3., 4., 5., 6., 7., 8., 9.]
}

#[test]
fn reflect_takes_opposite_components() {
    let v = streamed_sample();
    let r = reflect(&v);
    for n in D2Q9::all() {
        assert_eq!(r[n.value()], v[n.opposite().value()]);
    }
    assert_eq!(r, vec![1., 4., 5., 2., 3., 8., 9., 6., 7.]);
}

#[test]
fn bounce_back_replaces_cell() {
    let mut h: Handler<f64> = Handler::new();
    h.push(Condition::new(Type::BounceBack, bottom_edge()));
    let cur = sample();
    let st = streamed_sample();
    let r = h.apply(&cur, &st, &transfer, X(3, 0)).unwrap();
    for n in D2Q9::all() {
        assert_eq!(r[n.value()], st[n.opposite().value()]);
    }
    assert_eq!(h.apply(&cur, &st, &transfer, X(3, 1)), None);
}

#[test]
fn inflow_moves_mass_eastward() {
    let (rho, a) = (0.1, 0.015);
    let mut h: Handler<f64> = Handler::new();
    h.push(Condition::new(Type::Inflow(rho, a), left_edge()));
    let cur = sample();
    let r = h.apply(&cur, &streamed_sample(), &transfer, X(0, 2)).unwrap();
    let t = rho * a * (1. / 9.);
    let td = rho * a * (1. / 36.);
    assert_eq!(r[D2Q9::E.value()], cur[D2Q9::E.value()] + t);
    assert_eq!(r[D2Q9::W.value()], cur[D2Q9::W.value()] - t);
    assert_eq!(r[D2Q9::SE.value()], cur[D2Q9::SE.value()] + td);
    assert_eq!(r[D2Q9::NW.value()], cur[D2Q9::NW.value()] - td);
    assert_eq!(r[D2Q9::NE.value()], cur[D2Q9::NE.value()] + td);
    assert_eq!(r[D2Q9::SW.value()], cur[D2Q9::SW.value()] - td);
    for n in [D2Q9::C, D2Q9::N, D2Q9::S] {
        assert_eq!(r[n.value()], cur[n.value()]);
    }
}

#[test]
fn inflow_without_enough_mass_leaves_pair() {
    let (rho, a) = (10.0, 1.0);
    let mut h: Handler<f64> = Handler::new();
    h.push(Condition::new(Type::Inflow(rho, a), left_edge()));
    let cur = sample();
    let r = h.apply(&cur, &streamed_sample(), &transfer, X(0, 0)).unwrap();
    assert_eq!(r, cur);
}

#[test]
fn later_bounce_back_discards_inflow() {
    let mut h: Handler<f64> = Handler::new();
    h.push(Condition::new(Type::Inflow(0.1, 0.015), left_edge()));
    h.push(Condition::new(Type::BounceBack, bottom_edge()));
    let st = streamed_sample();
    let r = h.apply(&sample(), &st, &transfer, X(0, 0)).unwrap();
    assert_eq!(r, reflect(&st));
}

#[test]
fn later_inflow_refines_bounce_back() {
    let (rho, a) = (0.1, 0.015);
    let mut h: Handler<f64> = Handler::new();
    h.push(Condition::new(Type::BounceBack, bottom_edge()));
    h.push(Condition::new(Type::Inflow(rho, a), left_edge()));
    let st = streamed_sample();
    let r = h.apply(&sample(), &st, &transfer, X(0, 0)).unwrap();
    let b = reflect(&st);
    let t = rho * a * (1. / 9.);
    assert_eq!(r[D2Q9::E.value()], b[D2Q9::E.value()] + t);
    assert_eq!(r[D2Q9::W.value()], b[D2Q9::W.value()] - t);
    assert_eq!(r[D2Q9::C.value()], b[D2Q9::C.value()]);
}

#[test]
fn solid_and_first_index() {
    let mut h: Handler<f64> = Handler::new();
    h.push(Condition::new(Type::Inflow(0.1, 0.015), left_edge()));
    h.push(Condition::new(Type::BounceBack, Shape::Circle(Circle::new(300, 150))));
    h.push(Condition::new(Type::BounceBack, bottom_edge()));
    assert!(!h.solid_boundary(X(0, 5)));
    assert_eq!(h.idx(X(0, 5)), Some(0));
    assert!(h.solid_boundary(X(0, 0)));
    assert_eq!(h.idx(X(0, 0)), Some(0));
    assert!(h.solid_boundary(X(90, 75)));
    assert_eq!(h.idx(X(90, 75)), Some(1));
    assert!(h.solid_boundary(X(7, 0)));
    assert_eq!(h.idx(X(7, 0)), Some(2));
    assert!(!h.solid_boundary(X(200, 100)));
    assert_eq!(h.idx(X(200, 100)), None);
}
