use pathgame::board::{Board, GridLoc, GridPort, Port, TLoc};
use pathgame::geometry::{BoardExt, ScaledBox, ScaledPoint};
use pathgame::rectangle::RectangleBoard;
use pathgame::tile::{RegularKind, RegularTileConfig};

fn board() -> RectangleBoard {
    RectangleBoard::new(3, 2, 1, 1).unwrap()
}

fn port(x: u32, y: u32, dx: u32, dy: u32) -> GridPort {
    GridPort { x, y, dx, dy }
}

fn loc(x: u32, y: u32) -> GridLoc {
    GridLoc { x, y }
}

fn as_f64(p: ScaledPoint) -> (f64, f64) {
    (p.x as f64 / p.scale as f64, p.y as f64 / p.scale as f64)
}

#[test]
fn board_keeps_its_measures() {
    let b = RectangleBoard::new(3, 2, 4, 5).unwrap();
    assert_eq!(b.width(), 3);
    assert_eq!(b.height(), 2);
    assert_eq!(b.ports_per_edge(), 4);
    assert_eq!(b.num_kinds(), 5);
    assert_eq!(b.tile_config(), RegularTileConfig { ports_per_edge: 4, num_kinds: 5 });
    assert_eq!(b.duplicate(), b);
    assert_eq!(b.num_ports_around(), 16);
}

#[test]
fn board_refuses_too_many_ports() {
    assert!(RectangleBoard::new(1, 1, u32::MAX / 4, 1).is_some());
    assert!(RectangleBoard::new(1, 1, u32::MAX / 4 + 1, 1).is_none());
    assert!(RectangleBoard::new(u32::MAX, u32::MAX, 0, u32::MAX).is_some());
}

#[test]
fn loc_position_is_the_centre_of_the_cell() {
    let at = board().loc_position(&loc(1, 1));
    assert_eq!(at, ScaledPoint { x: 3, y: 3, scale: 2 });
    assert_eq!(as_f64(at), (1.5, 1.5));
    assert_eq!(as_f64(board().loc_position(&loc(0, 0))), (0.5, 0.5));
}

#[test]
fn port_position_divides_the_edge() {
    let b = board();
    assert_eq!(b.port_position(&port(0, 0, 1, 0)), ScaledPoint { x: 1, y: 0, scale: 2 });
    assert_eq!(as_f64(b.port_position(&port(0, 0, 1, 0))), (0.5, 0.0));
    assert_eq!(as_f64(b.port_position(&port(3, 1, 0, 1))), (3.0, 1.5));
    let fine = RectangleBoard::new(3, 2, 3, 1).unwrap();
    assert_eq!(as_f64(fine.port_position(&port(2, 1, 3, 0))), (2.75, 1.0));
    assert_eq!(fine.port_position(&port(2, 1, 3, 0)), ScaledPoint { x: 11, y: 4, scale: 4 });
    let big = RectangleBoard::new(1, 1, u32::MAX / 4, 1).unwrap();
    let far = big.port_position(&port(u32::MAX, u32::MAX, u32::MAX, u32::MAX));
    assert_eq!(far.scale, 1073741824);
    assert_eq!(far.x, 4294967295u64 * 1073741824 + 4294967295);
}

#[test]
fn bounding_box_reaches_a_tenth_beyond() {
    let bounds = board().bounding_box();
    assert_eq!(bounds, ScaledBox { min_x: -1, min_y: -1, max_x: 31, max_y: 21, scale: 10 });
    assert_eq!(bounds.min_x as f64 / bounds.scale as f64, -0.1);
    assert_eq!(bounds.min_y as f64 / bounds.scale as f64, -0.1);
    assert_eq!(bounds.max_x as f64 / bounds.scale as f64, 3.1);
    assert_eq!(bounds.max_y as f64 / bounds.scale as f64, 2.1);
}

#[test]
fn boundary_ports_of_the_small_board() {
    let ports = board().boundary_ports();
    assert_eq!(
        ports,
        vec![
            port(0, 0, 1, 0),
            port(1, 0, 1, 0),
            port(2, 0, 1, 0),
            port(0, 2, 1, 0),
            port(1, 2, 1, 0),
            port(2, 2, 1, 0),
            port(0, 0, 0, 1),
            port(0, 1, 0, 1),
            port(3, 0, 0, 1),
            port(3, 1, 0, 1),
        ]
    );
    assert!(ports.contains(&port(0, 0, 1, 0)));
    assert!(ports.contains(&port(0, 0, 0, 1)));
}

#[test]
fn boundary_ports_are_the_ports_on_the_perimeter() {
    let b = RectangleBoard::new(3, 2, 2, 1).unwrap();
    let ports = b.boundary_ports();
    assert_eq!(ports.len(), 20);
    for (i, p) in ports.iter().enumerate() {
        assert!(b.is_boundary_port(p));
        assert!(b.contains_port(p));
        assert!(!ports[..i].contains(p));
    }
    for x in 0..5 {
        for y in 0..4 {
            for d in 0..4 {
                for p in [port(x, y, d, 0), port(x, y, 0, d)] {
                    assert_eq!(b.is_boundary_port(&p), ports.contains(&p));
                }
            }
        }
    }
}

#[test]
fn board_without_cells_has_no_ports() {
    let flat = RectangleBoard::new(3, 0, 1, 1).unwrap();
    assert!(flat.boundary_ports().is_empty());
    assert!(!flat.contains_port(&port(0, 0, 1, 0)));
    assert!(!flat.contains_loc(&loc(0, 0)));
    let bare = RectangleBoard::new(3, 2, 0, 1).unwrap();
    assert!(bare.boundary_ports().is_empty());
}

#[test]
fn contains_tells_what_is_on_the_board() {
    let b = board();
    assert!(b.contains_loc(&loc(2, 1)));
    assert!(!b.contains_loc(&loc(3, 1)));
    assert!(!b.contains_loc(&loc(2, 2)));
    assert!(b.contains_port(&port(2, 2, 1, 0)));
    assert!(b.contains_port(&port(3, 1, 0, 1)));
    assert!(b.contains_port(&port(1, 1, 1, 0)));
    assert!(!b.contains_port(&port(3, 2, 1, 0)));
    assert!(!b.contains_port(&port(1, 1, 1, 1)));
    assert!(!b.contains_port(&port(1, 1, 0, 0)));
    assert!(!b.contains_port(&port(1, 1, 2, 0)));
    assert!(!b.is_boundary_port(&port(1, 1, 1, 0)));
    assert!(b.is_boundary_port(&port(1, 2, 1, 0)));
}

#[test]
fn all_kinds_are_numbered_from_zero() {
    let b = RectangleBoard::new(3, 2, 1, 3).unwrap();
    assert_eq!(b.all_kinds(), vec![RegularKind(0), RegularKind(1), RegularKind(2)]);
    assert!(RectangleBoard::new(3, 2, 1, 0).unwrap().all_kinds().is_empty());
}

#[test]
fn ports_around_a_cell_go_clockwise() {
    let b = RectangleBoard::new(3, 2, 2, 1).unwrap();
    let at = loc(1, 0);
    let around: Vec<GridPort> = (0..8).map(|i| b.tile_port(&at, i).unwrap()).collect();
    assert_eq!(
        around,
        vec![
            port(1, 0, 1, 0),
            port(1, 0, 2, 0),
            port(2, 0, 0, 1),
            port(2, 0, 0, 2),
            port(1, 1, 2, 0),
            port(1, 1, 1, 0),
            port(1, 0, 0, 2),
            port(1, 0, 0, 1),
        ]
    );
    assert_eq!(b.tile_port(&at, 8), None);
    assert_eq!(b.tile_port(&loc(3, 0), 0), None);
    for (i, p) in around.iter().enumerate() {
        assert_eq!(b.port_index(&at, p), Some(i as u32));
    }
    assert_eq!(b.port_index(&at, &port(0, 0, 1, 0)), None);
    assert_eq!(b.port_index(&loc(3, 0), &port(3, 0, 1, 0)), None);
}

#[test]
fn across_finds_the_neighbour() {
    let b = board();
    assert_eq!(b.across(&loc(1, 0), &port(2, 0, 0, 1)), Some(loc(2, 0)));
    assert_eq!(b.across(&loc(2, 0), &port(2, 0, 0, 1)), Some(loc(1, 0)));
    assert_eq!(b.across(&loc(1, 0), &port(1, 1, 1, 0)), Some(loc(1, 1)));
    assert_eq!(b.across(&loc(1, 1), &port(1, 1, 1, 0)), Some(loc(1, 0)));
    assert_eq!(b.across(&loc(1, 0), &port(1, 0, 1, 0)), None);
    assert_eq!(b.across(&loc(2, 1), &port(3, 1, 0, 1)), None);
    assert_eq!(b.across(&loc(0, 1), &port(0, 1, 0, 1)), None);
    assert_eq!(b.across(&loc(0, 1), &port(0, 2, 1, 0)), None);
    assert_eq!(b.across(&loc(0, 0), &port(2, 0, 0, 1)), None);
}

#[test]
fn entry_is_the_cell_of_a_boundary_port() {
    let b = board();
    assert_eq!(b.entry(&port(0, 0, 1, 0)), Some(loc(0, 0)));
    assert_eq!(b.entry(&port(2, 2, 1, 0)), Some(loc(2, 1)));
    assert_eq!(b.entry(&port(0, 1, 0, 1)), Some(loc(0, 1)));
    assert_eq!(b.entry(&port(3, 0, 0, 1)), Some(loc(2, 0)));
    assert_eq!(b.entry(&port(1, 1, 1, 0)), None);
    assert_eq!(b.entry(&port(5, 0, 1, 0)), None);
    for p in b.boundary_ports() {
        let cell = b.entry(&p).unwrap();
        assert!(b.port_index(&cell, &p).is_some());
        assert_eq!(b.across(&cell, &p), None);
    }
}

#[test]
fn same_compares_ports_and_locations() {
    assert!(port(1, 2, 0, 1).same(&port(1, 2, 0, 1)));
    assert!(!port(1, 2, 0, 1).same(&port(1, 2, 1, 0)));
    assert!(loc(1, 2).same(&loc(1, 2)));
    assert!(!loc(1, 2).same(&loc(2, 1)));
}
