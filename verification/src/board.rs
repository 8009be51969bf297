//! Boards: the static geometry that tiles are placed on.
use crate::tile::Kind;
use vstd::prelude::*;

verus! {

/// An addressable connection point on a board.
pub trait Port: Sized + Copy {
    /// Whether two ports are the same.
    fn same(&self, other: &Self) -> (r: bool)
        ensures
            r == (*self == *other),
    ;
}

/// A place on a board where one tile can lie.
pub trait TLoc: Sized + Copy {
    /// Whether two locations are the same.
    fn same(&self, other: &Self) -> (r: bool)
        ensures
            r == (*self == *other),
    ;
}

/// The static geometry of a game.
pub trait Board: Sized {
    /// The locations of the board.
    type TLoc: TLoc;

    /// The ports of the board.
    type Port: Port;

    /// The kinds of tile that the board takes.
    type Kind: Kind;

    /// Parameters handed to the tile family that fits this board.
    type TileConfig;

    /// Whether `loc` is a location of this board.
    spec fn has_loc(&self, loc: Self::TLoc) -> bool;

    /// Whether `port` is a port of this board.
    spec fn has_port(&self, port: Self::Port) -> bool;

    /// Whether `port` lies on the outer perimeter.
    spec fn on_boundary(&self, port: Self::Port) -> bool;

    /// The boundary ports in the order in which `boundary_ports` lists them.
    spec fn boundary_spec(&self) -> Seq<Self::Port>;

    /// The keys of the kinds of tile that the board takes, in the order in
    /// which `all_kinds` lists them.
    spec fn kinds_spec(&self) -> Seq<u32>;

    /// What the board tells its tile family.
    spec fn config_spec(&self) -> Self::TileConfig;

    /// Number of ports around one location.
    spec fn ports_around(&self) -> nat;

    /// The port of the board at which port `index` of a tile at `loc` lies.
    spec fn port_at(&self, loc: Self::TLoc, index: nat) -> Self::Port;

    /// The index that `port` has among the ports around `loc`, if it is one
    /// of them.
    spec fn index_spec(&self, loc: Self::TLoc, port: Self::Port) -> Option<nat>;

    /// The location that lies beyond `port` as seen from `loc`, if there is
    /// one.
    spec fn across_spec(&self, loc: Self::TLoc, port: Self::Port) -> Option<Self::TLoc>;

    /// The location that a port on the perimeter belongs to.
    spec fn entry_spec(&self, port: Self::Port) -> Option<Self::TLoc>;

    /// Whether `loc` is a location of this board.
    fn contains_loc(&self, loc: &Self::TLoc) -> (r: bool)
        ensures
            r == self.has_loc(*loc),
    ;

    /// Whether `port` is a port of this board.
    fn contains_port(&self, port: &Self::Port) -> (r: bool)
        ensures
            r == self.has_port(*port),
    ;

    /// Whether `port` is a port of this board on its outer perimeter.
    fn is_boundary_port(&self, port: &Self::Port) -> (r: bool)
        ensures
            r == (self.has_port(*port) && self.on_boundary(*port)),
    ;

    /// Every port on the outer perimeter, each once.
    fn boundary_ports(&self) -> (r: Vec<Self::Port>)
        ensures
            r@ == self.boundary_spec(),
    ;

    /// Every kind of tile that the board takes, each once.
    fn all_kinds(&self) -> (r: Vec<Self::Kind>)
        ensures
            r.len() == self.kinds_spec().len(),
            forall|i: int| 0 <= i < r.len() ==> (#[trigger] r[i]).key() == self.kinds_spec()[i],
            self.kinds_spec().no_duplicates(),
    ;

    /// What the board tells its tile family.
    fn tile_config(&self) -> (r: Self::TileConfig)
        ensures
            r == self.config_spec(),
    ;

    /// Number of ports around one location.
    fn num_ports_around(&self) -> (n: u32)
        ensures
            n == self.ports_around(),
    ;

    /// A second board like this one.
    fn duplicate(&self) -> (r: Self)
        ensures
            r == *self,
    ;

    /// The port of the board at which port `index` of a tile at `loc` lies.
    fn tile_port(&self, loc: &Self::TLoc, index: u32) -> (r: Option<Self::Port>)
        ensures
            r == (if self.has_loc(*loc) && index < self.ports_around() {
                Some(self.port_at(*loc, index as nat))
            } else {
                None
            }),
    ;

    /// The index that `port` has among the ports around `loc`.
    fn port_index(&self, loc: &Self::TLoc, port: &Self::Port) -> (r: Option<u32>)
        ensures
            self.index_spec(*loc, *port) == (match r {
                Some(i) => Some(i as nat),
                None => None,
            }),
    ;

    /// The location that lies beyond `port` as seen from `loc`.
    fn across(&self, loc: &Self::TLoc, port: &Self::Port) -> (r: Option<Self::TLoc>)
        ensures
            r == self.across_spec(*loc, *port),
    ;

    /// The location that a port on the perimeter belongs to.
    fn entry(&self, port: &Self::Port) -> (r: Option<Self::TLoc>)
        ensures
            r == self.entry_spec(*port),
    ;

    /// The listed boundary ports are exactly the ports on the perimeter, and
    /// none is listed twice.
    proof fn lemma_boundary(&self, port: Self::Port)
        ensures
            self.boundary_spec().contains(port) <==> self.has_port(port) && self.on_boundary(port),
            self.boundary_spec().no_duplicates(),
    ;

    /// The ports around a location are ports of the board, and each is
    /// found again under its index.
    proof fn lemma_port_at(&self, loc: Self::TLoc, index: nat)
        requires
            self.has_loc(loc),
            index < self.ports_around(),
        ensures
            self.has_port(self.port_at(loc, index)),
            self.index_spec(loc, self.port_at(loc, index)) == Some(index),
    ;

    /// A port has an index only around a location of the board, and lies
    /// where the index says.
    proof fn lemma_index(&self, loc: Self::TLoc, port: Self::Port)
        requires
            self.index_spec(loc, port).is_some(),
        ensures
            self.has_loc(loc),
            self.index_spec(loc, port).unwrap() < self.ports_around(),
            self.port_at(loc, self.index_spec(loc, port).unwrap()) == port,
    ;

    /// The ports of the board are the ports around its locations.
    proof fn lemma_ports(&self, port: Self::Port)
        ensures
            self.has_port(port) <==> exists|loc: Self::TLoc| #[trigger]
                self.index_spec(loc, port).is_some(),
    ;

    /// Around a port the locations come in pairs: what lies beyond it is
    /// another location with the same port, from which the first one lies
    /// beyond; where nothing lies beyond, the port is on the perimeter.
    proof fn lemma_across(&self, loc: Self::TLoc, port: Self::Port)
        ensures
            self.across_spec(loc, port).is_some() ==> {
                &&& self.index_spec(loc, port).is_some()
                &&& self.has_loc(self.across_spec(loc, port).unwrap())
                &&& self.across_spec(loc, port).unwrap() != loc
                &&& self.index_spec(self.across_spec(loc, port).unwrap(), port).is_some()
                &&& self.across_spec(self.across_spec(loc, port).unwrap(), port) == Some(loc)
                &&& !self.on_boundary(port)
            },
            self.across_spec(loc, port).is_none() && self.index_spec(loc, port).is_some()
                ==> self.on_boundary(port) && self.entry_spec(port) == Some(loc),
    ;

    /// Exactly the ports on the perimeter have an entry, which is the one
    /// location they belong to.
    proof fn lemma_entry(&self, port: Self::Port)
        ensures
            self.entry_spec(port).is_some() <==> self.has_port(port) && self.on_boundary(port),
            self.entry_spec(port).is_some() ==> {
                &&& self.index_spec(self.entry_spec(port).unwrap(), port).is_some()
                &&& self.across_spec(self.entry_spec(port).unwrap(), port).is_none()
            },
    ;
}

/// A cell of a grid, by column and row.
#[derive(Clone, Copy, Debug, PartialEq, Eq, Structural, PartialOrd, Ord, Hash)]
pub struct GridLoc {
    pub x: u32,
    pub y: u32,
}

/// A port on an edge of a grid cell: the grid point at which the edge
/// starts, and the offset along the edge, one of whose parts is zero.
#[derive(Clone, Copy, Debug, PartialEq, Eq, Structural, PartialOrd, Ord, Hash)]
pub struct GridPort {
    pub x: u32,
    pub y: u32,
    pub dx: u32,
    pub dy: u32,
}

impl TLoc for GridLoc {
    fn same(&self, other: &Self) -> (r: bool) {
        self.x == other.x && self.y == other.y
    }
}

impl Port for GridPort {
    fn same(&self, other: &Self) -> (r: bool) {
        self.x == other.x && self.y == other.y && self.dx == other.dx && self.dy == other.dy
    }
}

} // verus!
