use lbm::grid::{Idx, StructuredRectangular, X};
use lbm::D2Q9;

fn test_grid() -> StructuredRectangular {
    StructuredRectangular { x: 4, y: 3 }
}

#[test]
fn ids() {
    let g = test_grid();
    assert_eq!(g.size(), 12);
    assert_eq!(g.size(), g.ids().len());
    let mut c = 0;
    for i in g.ids() {
        assert_eq!(i, Idx(c));
        c += 1;
    }

    let mut c = 0;
    for j in 0..3 {
        for i in 0..4 {
            let x = X(i, j);
            let idx = Idx(c);
            println!("i: {}, j: {}, x: {:?}, idx: {:?}", i, j, x, idx);
            assert_eq!(g.x(idx), x);
            assert_eq!(g.idx(x), idx);

            c += 1;
        }
    }
}

#[test]
fn neighbors_wrap_around() {
    let g = test_grid();
    // cell (0, 0)
    assert_eq!(g.neighbor(Idx(0), D2Q9::C), Idx(0));
    assert_eq!(g.neighbor(Idx(0), D2Q9::E), Idx(1));
    assert_eq!(g.neighbor(Idx(0), D2Q9::W), Idx(3));
    assert_eq!(g.neighbor(Idx(0), D2Q9::N), Idx(4));
    assert_eq!(g.neighbor(Idx(0), D2Q9::S), Idx(8));
    assert_eq!(g.neighbor(Idx(0), D2Q9::SW), Idx(11));
    assert_eq!(g.neighbor(Idx(0), D2Q9::NE), Idx(5));
    // cell (3, 2)
    assert_eq!(g.neighbor(Idx(11), D2Q9::E), Idx(8));
    assert_eq!(g.neighbor(Idx(11), D2Q9::N), Idx(3));
    assert_eq!(g.neighbor(Idx(11), D2Q9::NE), Idx(0));
    assert_eq!(g.neighbor(Idx(11), D2Q9::SE), Idx(4));
    assert_eq!(g.neighbor(Idx(11), D2Q9::NW), Idx(2));
}

#[test]
fn neighbor_round_trip_and_coordinates() {
    let g = test_grid();
    for c in g.ids() {
        assert_eq!(g.idx(g.x(c)), c);
        for n in D2Q9::all() {
            let m = g.neighbor(c, n);
            assert!(m.0 < g.size());
            assert_eq!(g.neighbor(m, n.opposite()), c);
        }
    }
    let g1 = StructuredRectangular { x: 1, y: 1 };
    for n in D2Q9::all() {
        assert_eq!(g1.neighbor(Idx(0), n), Idx(0));
    }
}
