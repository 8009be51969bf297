//! Where the ports and locations of a board lie in the plane, in exact
//! rational coordinates.
use crate::board::{Board, GridLoc, GridPort};
use crate::rectangle::RectangleBoard;
use crate::cyclic::{add_mod, lemma_add_mod, wide_mul};
use vstd::prelude::*;

verus! {

/// A point of the plane with rational coordinates `x / scale`, `y / scale`.
#[derive(Clone, Copy, Debug, PartialEq, Eq, Structural, Hash)]
pub struct ScaledPoint {
    pub x: u64,
    pub y: u64,
    pub scale: u64,
}

/// A rectangle of the plane whose corners have rational coordinates over
/// `scale`.
#[derive(Clone, Copy, Debug, PartialEq, Eq, Structural, Hash)]
pub struct ScaledBox {
    pub min_x: i64,
    pub min_y: i64,
    pub max_x: i64,
    pub max_y: i64,
    pub scale: i64,
}

/// What a board tells of its layout in the plane.
pub trait BoardExt: Board {
    /// Where a port lies.
    spec fn port_point(&self, port: Self::Port) -> ScaledPoint;

    /// Where the centre of a location lies.
    spec fn loc_point(&self, loc: Self::TLoc) -> ScaledPoint;

    /// A rectangle around the whole board.
    spec fn bounds(&self) -> ScaledBox;

    /// Where a port lies.
    fn port_position(&self, port: &Self::Port) -> (r: ScaledPoint)
        ensures
            r == self.port_point(*port),
    ;

    /// Where the centre of a location lies.
    fn loc_position(&self, loc: &Self::TLoc) -> (r: ScaledPoint)
        ensures
            r == self.loc_point(*loc),
    ;

    /// A rectangle around the whole board.
    fn bounding_box(&self) -> (r: ScaledBox)
        ensures
            r == self.bounds(),
    ;
}

impl BoardExt for RectangleBoard {
    /// A port lies on its edge, as many equal parts from the edge's start as
    /// its offset says, of one part more than there are ports on the edge.
    open spec fn port_point(&self, port: GridPort) -> ScaledPoint {
        ScaledPoint {
            x: (port.x * (self.spec_ports_per_edge() + 1) + port.dx) as u64,
            y: (port.y * (self.spec_ports_per_edge() + 1) + port.dy) as u64,
            scale: (self.spec_ports_per_edge() + 1) as u64,
        }
    }

    /// The centre of a cell lies half a cell from its corner.
    open spec fn loc_point(&self, loc: GridLoc) -> ScaledPoint {
        ScaledPoint { x: (2 * loc.x + 1) as u64, y: (2 * loc.y + 1) as u64, scale: 2 }
    }

    /// The box reaches a tenth of a cell beyond the grid on every side.
    open spec fn bounds(&self) -> ScaledBox {
        ScaledBox {
            min_x: -1i64,
            min_y: -1i64,
            max_x: (10 * self.spec_width() + 1) as i64,
            max_y: (10 * self.spec_height() + 1) as i64,
            scale: 10,
        }
    }

    fn port_position(&self, port: &GridPort) -> (r: ScaledPoint) {
        let p: u32 = self.ports_per_edge();
        let x: u64 = wide_mul(port.x, p);
        let y: u64 = wide_mul(port.y, p);
        proof {
            let pn = p as nat;
            assert((port.x as nat) * pn <= 0xffff_ffff * 0xffff_ffff) by (nonlinear_arith)
                requires
                    port.x <= 0xffff_ffff,
                    pn <= 0xffff_ffff,
            ;
            assert((port.y as nat) * pn <= 0xffff_ffff * 0xffff_ffff) by (nonlinear_arith)
                requires
                    port.y <= 0xffff_ffff,
                    pn <= 0xffff_ffff,
            ;
            assert(port.x * (pn + 1) == (port.x as nat) * pn + port.x) by (nonlinear_arith);
            assert(port.y * (pn + 1) == (port.y as nat) * pn + port.y) by (nonlinear_arith);
        }
        ScaledPoint {
            x: x + port.x as u64 + port.dx as u64,
            y: y + port.y as u64 + port.dy as u64,
            scale: p as u64 + 1,
        }
    }

    fn loc_position(&self, loc: &GridLoc) -> (r: ScaledPoint) {
        ScaledPoint { x: 2 * (loc.x as u64) + 1, y: 2 * (loc.y as u64) + 1, scale: 2 }
    }

    fn bounding_box(&self) -> (r: ScaledBox) {
        ScaledBox {
            min_x: -1,
            min_y: -1,
            max_x: 10 * (self.width() as i64) + 1,
            max_y: 10 * (self.height() as i64) + 1,
            scale: 10,
        }
    }
}

/// Twice the distance of a point from the centre of a cell, along each
/// axis, in parts of which `scale` make a cell.
pub open spec fn from_centre(at: ScaledPoint, loc: GridLoc) -> (int, int) {
    (2 * at.x - (2 * loc.x + 1) * at.scale, 2 * at.y - (2 * loc.y + 1) * at.scale)
}

/// Turning a tile by one edge moves each of its ports a quarter turn about
/// the centre of its cell: the port that is `ports_per_edge` further round
/// lies where the port lay, turned from the upper edge towards the right
/// one.
pub proof fn lemma_quarter_turn(board: RectangleBoard, loc: GridLoc, index: nat)
    requires
        board.wf(),
        board.has_loc(loc),
        index < board.ports_around(),
    ensures
        ({
            let next = add_mod(index, board.spec_ports_per_edge(), board.ports_around());
            let before = from_centre(board.port_point(board.port_at(loc, index)), loc);
            let after = from_centre(board.port_point(board.port_at(loc, next)), loc);
            after.0 == -before.1 && after.1 == before.0
        }),
{
    let p = board.spec_ports_per_edge();
    board.lemma_measures();
    lemma_add_mod(index, p, 4 * p);
    let next = add_mod(index, p, 4 * p);
    let s = (p + 1) as int;
    let a = board.port_at(loc, index);
    let b = board.port_at(loc, next);
    let x = loc.x as int;
    let y = loc.y as int;
    assert(0 <= x * s <= 0xffff_ffff * 0x4000_0000 && 0 <= y * s <= 0xffff_ffff * 0x4000_0000)
        by (nonlinear_arith)
        requires
            0 <= x <= 0xffff_ffff,
            0 <= y <= 0xffff_ffff,
            0 < s <= 0x4000_0000,
    ;
    assert((x + 1) * s == x * s + s && (y + 1) * s == y * s + s) by (nonlinear_arith);
    assert((2 * x + 1) * s == 2 * (x * s) + s && (2 * y + 1) * s == 2 * (y * s) + s)
        by (nonlinear_arith);
    assert(a.x * (p + 1) == a.x * s && a.y * (p + 1) == a.y * s);
    assert(b.x * (p + 1) == b.x * s && b.y * (p + 1) == b.y * s);
    let before = from_centre(board.port_point(a), loc);
    let after = from_centre(board.port_point(b), loc);
    if index < p {
        assert(a.x == x && a.y == y && b.x == x + 1 && b.y == y);
        assert(before == (2 * (index + 1) - s, -s));
        assert(after == (s, 2 * (index + 1) - s));
    } else if index < 2 * p {
        assert(a.x == x + 1 && a.y == y && b.x == x && b.y == y + 1);
        assert(before == (s, 2 * (index - p + 1) - s));
        assert(after == (2 * (2 * p - index) - s, s));
    } else if index < 3 * p {
        assert(a.x == x && a.y == y + 1 && b.x == x && b.y == y);
        assert(before == (2 * (3 * p - index) - s, s));
        assert(after == (-s, 2 * (3 * p - index) - s));
    } else {
        assert(a.x == x && a.y == y && b.x == x && b.y == y);
        assert(before == (-s, 2 * (4 * p - index) - s));
        assert(after == (2 * (index - 3 * p + 1) - s, -s));
    }
}

} // verus!
