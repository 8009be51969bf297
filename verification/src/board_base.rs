//! The closed carriers of the board side: locations, ports and boards of
//! any registered variant.
use crate::board::{Board, GridLoc, GridPort, Port, TLoc};
use crate::geometry::{BoardExt, ScaledBox, ScaledPoint};
use crate::rectangle::RectangleBoard;
use crate::tile::Kind;
use crate::tile_base::BaseKind;
use crate::wrap::{Erased, WrapBase};
use vstd::prelude::*;

verus! {

/// The variants of the location and port families.
#[derive(Clone, Copy, Debug, PartialEq, Eq, Structural, Hash)]
pub enum GridTag {
    Grid,
}

/// The variants of the board family.
#[derive(Clone, Copy, Debug, PartialEq, Eq, Structural, Hash)]
pub enum BoardTag {
    Rectangle,
}

/// A tile location of any registered variant.
#[derive(Clone, Copy, Debug, PartialEq, Eq, Structural, PartialOrd, Ord, Hash)]
pub enum BaseTLoc {
    Grid(GridLoc),
}

/// A port of any registered variant.
#[derive(Clone, Copy, Debug, PartialEq, Eq, Structural, PartialOrd, Ord, Hash)]
pub enum BasePort {
    Grid(GridPort),
}

/// A board of any registered variant.
#[derive(Clone, Copy, Debug, PartialEq, Eq, Hash)]
pub enum BaseBoard {
    Rectangle(RectangleBoard),
}

impl Erased for BaseTLoc {
    type Tag = GridTag;

    open spec fn tag_spec(&self) -> GridTag {
        match self {
            BaseTLoc::Grid(_) => GridTag::Grid,
        }
    }

    fn tag(&self) -> (t: GridTag) {
        match self {
            BaseTLoc::Grid(_) => GridTag::Grid,
        }
    }
}

impl Erased for BasePort {
    type Tag = GridTag;

    open spec fn tag_spec(&self) -> GridTag {
        match self {
            BasePort::Grid(_) => GridTag::Grid,
        }
    }

    fn tag(&self) -> (t: GridTag) {
        match self {
            BasePort::Grid(_) => GridTag::Grid,
        }
    }
}

impl Erased for BaseBoard {
    type Tag = BoardTag;

    open spec fn tag_spec(&self) -> BoardTag {
        match self {
            BaseBoard::Rectangle(_) => BoardTag::Rectangle,
        }
    }

    fn tag(&self) -> (t: BoardTag) {
        match self {
            BaseBoard::Rectangle(_) => BoardTag::Rectangle,
        }
    }
}

impl WrapBase for GridLoc {
    type Base = BaseTLoc;

    open spec fn variant() -> GridTag {
        GridTag::Grid
    }

    open spec fn wrap_spec(self) -> BaseTLoc {
        BaseTLoc::Grid(self)
    }

    open spec fn unwrap_spec(base: &BaseTLoc) -> Option<Self> {
        match base {
            BaseTLoc::Grid(l) => Some(*l),
        }
    }

    fn wrap_base(self) -> (b: BaseTLoc) {
        BaseTLoc::Grid(self)
    }

    fn unwrap_base(base: BaseTLoc) -> (r: Option<Self>) {
        match base {
            BaseTLoc::Grid(l) => Some(l),
        }
    }

    fn unwrap_base_ref(base: &BaseTLoc) -> (r: Option<&Self>) {
        match base {
            BaseTLoc::Grid(l) => Some(l),
        }
    }

    proof fn lemma_round_trip(v: Self) {
    }

    proof fn lemma_unwrap(base: BaseTLoc) {
    }
}

impl WrapBase for GridPort {
    type Base = BasePort;

    open spec fn variant() -> GridTag {
        GridTag::Grid
    }

    open spec fn wrap_spec(self) -> BasePort {
        BasePort::Grid(self)
    }

    open spec fn unwrap_spec(base: &BasePort) -> Option<Self> {
        match base {
            BasePort::Grid(p) => Some(*p),
        }
    }

    fn wrap_base(self) -> (b: BasePort) {
        BasePort::Grid(self)
    }

    fn unwrap_base(base: BasePort) -> (r: Option<Self>) {
        match base {
            BasePort::Grid(p) => Some(p),
        }
    }

    fn unwrap_base_ref(base: &BasePort) -> (r: Option<&Self>) {
        match base {
            BasePort::Grid(p) => Some(p),
        }
    }

    proof fn lemma_round_trip(v: Self) {
    }

    proof fn lemma_unwrap(base: BasePort) {
    }
}

impl WrapBase for RectangleBoard {
    type Base = BaseBoard;

    open spec fn variant() -> BoardTag {
        BoardTag::Rectangle
    }

    open spec fn wrap_spec(self) -> BaseBoard {
        BaseBoard::Rectangle(self)
    }

    open spec fn unwrap_spec(base: &BaseBoard) -> Option<Self> {
        match base {
            BaseBoard::Rectangle(b) => Some(*b),
        }
    }

    fn wrap_base(self) -> (b: BaseBoard) {
        BaseBoard::Rectangle(self)
    }

    fn unwrap_base(base: BaseBoard) -> (r: Option<Self>) {
        match base {
            BaseBoard::Rectangle(b) => Some(b),
        }
    }

    fn unwrap_base_ref(base: &BaseBoard) -> (r: Option<&Self>) {
        match base {
            BaseBoard::Rectangle(b) => Some(b),
        }
    }

    proof fn lemma_round_trip(v: Self) {
    }

    proof fn lemma_unwrap(base: BaseBoard) {
    }
}

impl TLoc for BaseTLoc {
    fn same(&self, other: &Self) -> (r: bool) {
        match (self, other) {
            (BaseTLoc::Grid(a), BaseTLoc::Grid(b)) => a.same(b),
        }
    }
}

impl Port for BasePort {
    fn same(&self, other: &Self) -> (r: bool) {
        match (self, other) {
            (BasePort::Grid(a), BasePort::Grid(b)) => a.same(b),
        }
    }
}

/// The ports of a list, each in its carrier.
pub open spec fn wrap_ports(ports: Seq<GridPort>) -> Seq<BasePort> {
    Seq::new(ports.len(), |i: int| BasePort::Grid(ports[i]))
}

/// The ports of a list, each in its carrier.
pub fn wrap_all_ports(ports: Vec<GridPort>) -> (r: Vec<BasePort>)
    ensures
        r@ == wrap_ports(ports@),
{
    let mut wrapped: Vec<BasePort> = Vec::new();
    let mut i: usize = 0;
    while i < ports.len()
        invariant
            i <= ports.len(),
            wrapped.len() == i,
            forall|j: int| 0 <= j < i ==> wrapped[j] == BasePort::Grid(ports[j]),
        decreases ports.len() - i,
    {
        wrapped.push(BasePort::Grid(ports[i]));
        i += 1;
    }
    assert(wrapped@ =~= wrap_ports(ports@));
    wrapped
}

impl BaseBoard {
    /// Whether `loc` is a location of the board inside.
    pub open spec fn has_loc(&self, loc: BaseTLoc) -> bool {
        match (self, loc) {
            (BaseBoard::Rectangle(b), BaseTLoc::Grid(l)) => b.has_loc(l),
        }
    }

    /// Whether `port` is a port of the board inside.
    pub open spec fn has_port(&self, port: BasePort) -> bool {
        match (self, port) {
            (BaseBoard::Rectangle(b), BasePort::Grid(p)) => b.has_port(p),
        }
    }

    /// The boundary ports of the board inside, each in its carrier.
    pub open spec fn boundary_spec(&self) -> Seq<BasePort> {
        match self {
            BaseBoard::Rectangle(b) => wrap_ports(b.boundary_spec()),
        }
    }

    /// The keys of the kinds of the board inside.
    pub open spec fn kinds_spec(&self) -> Seq<u32> {
        match self {
            BaseBoard::Rectangle(b) => b.kinds_spec(),
        }
    }

    /// Whether `loc` is a location of the board.
    pub fn contains_loc(&self, loc: &BaseTLoc) -> (r: bool)
        ensures
            r == self.has_loc(*loc),
    {
        match (self, loc) {
            (BaseBoard::Rectangle(b), BaseTLoc::Grid(l)) => b.contains_loc(l),
        }
    }

    /// Whether `port` is a port of the board.
    pub fn contains_port(&self, port: &BasePort) -> (r: bool)
        ensures
            r == self.has_port(*port),
    {
        match (self, port) {
            (BaseBoard::Rectangle(b), BasePort::Grid(p)) => b.contains_port(p),
        }
    }

    /// Whether `port` is a port of the board on its outer perimeter.
    pub fn is_boundary_port(&self, port: &BasePort) -> (r: bool)
        ensures
            r == (match (self, port) {
                (BaseBoard::Rectangle(b), BasePort::Grid(p)) => b.has_port(*p) && b.on_boundary(*p),
            }),
    {
        match (self, port) {
            (BaseBoard::Rectangle(b), BasePort::Grid(p)) => b.is_boundary_port(p),
        }
    }

    /// Number of ports around one location.
    pub fn num_ports_around(&self) -> (n: u32)
        ensures
            n == (match self {
                BaseBoard::Rectangle(b) => b.ports_around(),
            }),
    {
        match self {
            BaseBoard::Rectangle(b) => b.num_ports_around(),
        }
    }

    /// The port of the board at which port `index` of a tile at `loc` lies.
    pub fn tile_port(&self, loc: &BaseTLoc, index: u32) -> (r: Option<BasePort>)
        ensures
            r == (match (self, loc) {
                (BaseBoard::Rectangle(b), BaseTLoc::Grid(l)) => if b.has_loc(*l) && index
                    < b.ports_around() {
                    Some(BasePort::Grid(b.port_at(*l, index as nat)))
                } else {
                    None
                },
            }),
    {
        match (self, loc) {
            (BaseBoard::Rectangle(b), BaseTLoc::Grid(l)) => match b.tile_port(l, index) {
                Some(p) => Some(BasePort::Grid(p)),
                None => None,
            },
        }
    }

    /// The index that `port` has among the ports around `loc`.
    pub fn port_index(&self, loc: &BaseTLoc, port: &BasePort) -> (r: Option<u32>)
        ensures
            (match (self, loc, port) {
                (BaseBoard::Rectangle(b), BaseTLoc::Grid(l), BasePort::Grid(p)) => b.index_spec(
                    *l,
                    *p,
                ),
            }) == (match r {
                Some(i) => Some(i as nat),
                None => None,
            }),
    {
        match (self, loc, port) {
            (BaseBoard::Rectangle(b), BaseTLoc::Grid(l), BasePort::Grid(p)) => b.port_index(l, p),
        }
    }

    /// The location that lies beyond `port` as seen from `loc`.
    pub fn across(&self, loc: &BaseTLoc, port: &BasePort) -> (r: Option<BaseTLoc>)
        ensures
            r == (match (self, loc, port) {
                (
                    BaseBoard::Rectangle(b),
                    BaseTLoc::Grid(l),
                    BasePort::Grid(p),
                ) => match b.across_spec(*l, *p) {
                    Some(o) => Some(BaseTLoc::Grid(o)),
                    None => None,
                },
            }),
    {
        match (self, loc, port) {
            (BaseBoard::Rectangle(b), BaseTLoc::Grid(l), BasePort::Grid(p)) => match b.across(l, p) {
                Some(o) => Some(BaseTLoc::Grid(o)),
                None => None,
            },
        }
    }

    /// The location that a port on the perimeter belongs to.
    pub fn entry(&self, port: &BasePort) -> (r: Option<BaseTLoc>)
        ensures
            r == (match (self, port) {
                (BaseBoard::Rectangle(b), BasePort::Grid(p)) => match b.entry_spec(*p) {
                    Some(o) => Some(BaseTLoc::Grid(o)),
                    None => None,
                },
            }),
    {
        match (self, port) {
            (BaseBoard::Rectangle(b), BasePort::Grid(p)) => match b.entry(p) {
                Some(o) => Some(BaseTLoc::Grid(o)),
                None => None,
            },
        }
    }

    /// Every port on the outer perimeter, each once.
    pub fn boundary_ports(&self) -> (r: Vec<BasePort>)
        ensures
            r@ == self.boundary_spec(),
    {
        match self {
            BaseBoard::Rectangle(b) => wrap_all_ports(b.boundary_ports()),
        }
    }

    /// Every kind of tile that the board takes, each once.
    pub fn all_kinds(&self) -> (r: Vec<BaseKind>)
        ensures
            r.len() == self.kinds_spec().len(),
            forall|i: int| 0 <= i < r.len() ==> (#[trigger] r[i]).key() == self.kinds_spec()[i],
    {
        match self {
            BaseBoard::Rectangle(b) => {
                let kinds = b.all_kinds();
                let mut wrapped: Vec<BaseKind> = Vec::new();
                let mut i: usize = 0;
                while i < kinds.len()
                    invariant
                        i <= kinds.len(),
                        wrapped.len() == i,
                        forall|j: int| 0 <= j < i ==> wrapped[j] == BaseKind::Regular(kinds[j]),
                    decreases kinds.len() - i,
                {
                    wrapped.push(BaseKind::Regular(kinds[i]));
                    i += 1;
                }
                wrapped
            },
        }
    }
}

/// What the carrier of a board tells of the layout of the board inside.
pub trait BaseBoardExt {
    /// Where a port lies.
    spec fn port_point(&self, port: BasePort) -> ScaledPoint;

    /// Where the centre of a location lies.
    spec fn loc_point(&self, loc: BaseTLoc) -> ScaledPoint;

    /// A rectangle around the whole board.
    spec fn bounds(&self) -> ScaledBox;

    /// Where a port lies.
    fn port_position(&self, port: &BasePort) -> (r: ScaledPoint)
        ensures
            r == self.port_point(*port),
    ;

    /// Where the centre of a location lies.
    fn loc_position(&self, loc: &BaseTLoc) -> (r: ScaledPoint)
        ensures
            r == self.loc_point(*loc),
    ;

    /// A rectangle around the whole board.
    fn bounding_box(&self) -> (r: ScaledBox)
        ensures
            r == self.bounds(),
    ;
}

impl BaseBoardExt for BaseBoard {
    open spec fn port_point(&self, port: BasePort) -> ScaledPoint {
        match (self, port) {
            (BaseBoard::Rectangle(b), BasePort::Grid(p)) => b.port_point(p),
        }
    }

    open spec fn loc_point(&self, loc: BaseTLoc) -> ScaledPoint {
        match (self, loc) {
            (BaseBoard::Rectangle(b), BaseTLoc::Grid(l)) => b.loc_point(l),
        }
    }

    open spec fn bounds(&self) -> ScaledBox {
        match self {
            BaseBoard::Rectangle(b) => b.bounds(),
        }
    }

    fn port_position(&self, port: &BasePort) -> (r: ScaledPoint) {
        match (self, port) {
            (BaseBoard::Rectangle(b), BasePort::Grid(p)) => b.port_position(p),
        }
    }

    fn loc_position(&self, loc: &BaseTLoc) -> (r: ScaledPoint) {
        match (self, loc) {
            (BaseBoard::Rectangle(b), BaseTLoc::Grid(l)) => b.loc_position(l),
        }
    }

    fn bounding_box(&self) -> (r: ScaledBox) {
        match self {
            BaseBoard::Rectangle(b) => b.bounding_box(),
        }
    }
}

} // verus!
