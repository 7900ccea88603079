use lbm::boundary::{Condition, Type};
use lbm::geometry::{Circle, Plane, Shape};
use lbm::grid::{Idx, StructuredRectangular, X};
use lbm::solver::output_due;
use lbm::{Solver, D2Q9};

const C_SQU: f64 = 1. / 3.;

fn weight(n: D2Q9) -> f64 {
    n.weight36() as f64 / 36.0
}

fn transfer(from: f64, to: f64, density: f64, accel: f64, w36: u8) -> (f64, f64) {
    let t = density * accel * (w36 as f64 / 36.0);
    if from - t > 0. {
        (from - t, to + t)
    } else {
        (from, to)
    }
}

fn bgk(omega: f64) -> impl Fn(Vec<f64>) -> Vec<f64> {
    move |f: Vec<f64>| {
        let rho: f64 = f.iter().sum();
        let mut u = [0.; 2];
        for n in D2Q9::all() {
            let e = n.direction().array();
            u[0] += e[0] as f64 * f[n.value()];
            u[1] += e[1] as f64 * f[n.value()];
        }
        u[0] /= rho;
        u[1] /= rho;
        let u_squ = u[0] * u[0] + u[1] * u[1];
        let mut out = vec![0.; 9];
        for n in D2Q9::all() {
            let e = n.direction().array();
            let u_n = e[0] as f64 * u[0] + e[1] as f64 * u[1];
            let eq = if n == D2Q9::C {
                weight(n) * rho * (1. - u_squ / (2. * C_SQU))
            } else {
                weight(n) * rho
                    * (1. + u_n / C_SQU + u_n * u_n / (2. * C_SQU * C_SQU) - u_squ / (2. * C_SQU))
            };
            out[n.value()] = f[n.value()] + omega * (eq - f[n.value()]);
        }
        out
    }
}

fn rest(rho: f64) -> Vec<f64> {
    D2Q9::all().iter().map(|n| rho * weight(*n)).collect()
}

fn step(s: &mut Solver<f64>, omega: f64) {
    s.streaming();
    s.collision(&bgk(omega));
    s.apply_boundary_conditions(&transfer);
}

fn total(s: &Solver<f64>) -> f64 {
    s.grid.ids().iter().map(|c| s.distribution(*c).iter().sum::<f64>()).sum()
}

#[test]
fn collision_keeps_rest_state_and_mass() {
    let op = bgk(1.85);
    let r = rest(0.1);
    let out = op(r.clone());
    for n in 0..9 {
        assert!((out[n] - r[n]).abs() < 1e-15);
    }
    let f = vec![0.5, 0.1, 0.2, 0.05, 0.12, 0.03, 0.01, 0.02, 0.04];
    let out = op(f.clone());
    let before: f64 = f.iter().sum();
    let after: f64 = out.iter().sum();
    assert!((before - after).abs() < 1e-14);
}

#[test]
fn periodic_rest_field_is_steady() {
    let grid = StructuredRectangular { x: 4, y: 3 };
    let mut s = Solver::new(grid, 0.0f64);
    let rho0 = 0.1;
    s.initialize(&|_x: X| rest(rho0));
    for _ in 0..5 {
        step(&mut s, 1.85);
    }
    let r = rest(rho0);
    for c in grid.ids() {
        let d = s.distribution(c);
        for n in 0..9 {
            assert!((d[n] - r[n]).abs() < 1e-15, "cell {:?} velocity {}", c, n);
        }
    }
}

#[test]
fn streaming_pulls_from_neighbours() {
    let grid = StructuredRectangular { x: 4, y: 3 };
    let mut s = Solver::new(grid, 0.0f64);
    s.initialize(&|x: X| (0..9).map(|n| (100 * (x.0 + 4 * x.1) + n) as f64).collect());
    s.streaming();
    for c in grid.ids() {
        for n in D2Q9::all() {
            let m = grid.neighbor(c, n);
            assert_eq!(s.f_hlp[c.0 * 9 + n.value()], s.f_ref(m, n));
        }
    }
}

#[test]
fn inflow_edge_shifts_mass_eastward() {
    let grid = StructuredRectangular { x: 4, y: 3 };
    let (rho, a) = (0.1, 0.015);
    let mut s = Solver::new(grid, 0.0f64);
    s.bcs.push(Condition::new(Type::Inflow(rho, a), Shape::Plane(Plane::new((1, 0), (0, 0)))));
    s.initialize(&|_x: X| rest(rho));
    step(&mut s, 1.85);
    let t = rho * a * weight(D2Q9::W);
    let td = rho * a * weight(D2Q9::NW);
    for y in 0..3 {
        let edge = s.distribution(grid.idx(X(0, y)));
        let inner = s.distribution(grid.idx(X(2, y)));
        let close = |a: f64, b: f64| (a - b).abs() < 1e-15;
        assert!(close(edge[D2Q9::E.value()], inner[D2Q9::E.value()] + t));
        assert!(close(edge[D2Q9::W.value()], inner[D2Q9::W.value()] - t));
        assert!(close(edge[D2Q9::NE.value()], inner[D2Q9::NE.value()] + td));
        assert!(close(edge[D2Q9::SW.value()], inner[D2Q9::SW.value()] - td));
        assert!(close(edge[D2Q9::C.value()], inner[D2Q9::C.value()]));
    }
}

#[test]
fn channel_with_obstacle_keeps_mass() {
    let grid = StructuredRectangular { x: 300, y: 150 };
    let (rho, a) = (0.1, 0.015);
    let mut s = Solver::new(grid, 0.0f64);
    s.bcs.push(Condition::new(Type::BounceBack, Shape::Circle(Circle::new(300, 150))));
    s.bcs.push(Condition::new(Type::BounceBack, Shape::Plane(Plane::new((0, 1), (0, 0)))));
    s.bcs.push(Condition::new(Type::BounceBack, Shape::Plane(Plane::new((0, -1), (0, 149)))));
    s.bcs.push(Condition::new(Type::Inflow(rho, a), Shape::Plane(Plane::new((1, 0), (0, 0)))));
    s.initialize(&|_x: X| rest(rho));
    let initial = total(&s);
    assert!((initial - rho * 45000.).abs() < 1e-8);
    for _ in 0..3 {
        step(&mut s, 1.85);
        let now = total(&s);
        assert!(((now - initial) / initial).abs() < 1e-3, "integral {} vs {}", now, initial);
    }
    assert!(s.solid_boundary(grid.idx(X(90, 75))));
    assert!(!s.solid_boundary(grid.idx(X(200, 75))));
}

#[test]
fn output_schedule() {
    assert!(output_due(0, 500));
    assert!(output_due(1000, 500));
    assert!(!output_due(499, 500));
    assert!(!output_due(0, 0));
    let _ = Idx(0);
}
