//! Game definitions: a board, the ports where players may start, and how
//! many tiles of each kind every player is given.
use crate::board::{Board, Port, TLoc};
use crate::board_base::BaseBoard;
use crate::game_base::BaseGameState;
use crate::geometry::{BoardExt, ScaledPoint};
use crate::table::{table_get, table_insert, table_new};
use crate::tile::{GAct, Kind, Tile};
use fnv::FnvHashMap;
use std::marker::PhantomData;
use vstd::prelude::*;

verus! {

/// Identifies one game among those that a host runs.
#[derive(Clone, Copy, Debug, PartialEq, Eq, Structural, Hash, PartialOrd, Ord)]
pub struct GameId(pub u32);

/// A rule configuration: a board, legal starts and a tile economy.
pub trait Game: Sized {
    /// The locations of the board.
    type TLoc: TLoc;

    /// The ports of the board.
    type Port: Port;

    /// The kinds of the tiles.
    type Kind: Kind;

    /// The actions that transform the tiles.
    type GAct: GAct;

    /// What the board tells the tile family.
    type TileConfig;

    type Board: Board<
        TLoc = Self::TLoc,
        Port = Self::Port,
        Kind = Self::Kind,
        TileConfig = Self::TileConfig,
    >;

    /// The tiles that are placed on the board.
    type Tile: Tile<Kind = Self::Kind, GAct = Self::GAct, TileConfig = Self::TileConfig>;

    /// The game's board.
    spec fn board_spec(&self) -> Self::Board;

    /// The ports at which players may start.
    spec fn start_ports_spec(&self) -> Seq<Self::Port>;

    /// How many tiles of each kind, by the kind's key, a player starts with.
    spec fn allotment(&self) -> Map<u32, u32>;

    /// The game's board.
    fn board(&self) -> (b: &Self::Board)
        ensures
            *b == self.board_spec(),
    ;

    /// All the ports that players can start at.
    fn start_ports(&self) -> (r: Vec<Self::Port>)
        ensures
            r@ == self.start_ports_spec(),
    ;

    /// The set of tiles the game uses.
    fn all_tiles(&self) -> (r: Vec<Self::Tile>)
        requires
            Self::Tile::config_ok(&self.board_spec().config_spec()),
        ensures
            r.len() == Self::Tile::all_spec(&self.board_spec().config_spec()).len(),
            forall|i: int|
                0 <= i < r.len() ==> (#[trigger] r[i]).model() == Self::Tile::all_spec(
                    &self.board_spec().config_spec(),
                )[i],
    {
        let config = self.board().tile_config();
        Self::Tile::all(&config)
    }

    /// Whether the game says how many tiles of `kind` a player starts with.
    fn allots(&self, kind: &Self::Kind) -> (r: bool)
        ensures
            r == self.allotment().contains_key(kind.key()),
    ;

    /// Tiles of some kind that a player starts with.
    fn num_tiles_per_player(&self, kind: &Self::Kind) -> (n: u32)
        requires
            self.allotment().contains_key(kind.key()),
        ensures
            n == self.allotment()[kind.key()],
    ;
}

/// A game of any kind, as far as a host needs to know it.
pub trait GenericGame {
    /// Whether a session of the game can begin.
    spec fn can_start(&self) -> bool;

    /// Whether `state` is the state in which the game begins with
    /// `num_players` players.
    spec fn starts(&self, num_players: nat, state: &BaseGameState) -> bool;

    /// The board of the game, in its carrier.
    spec fn board_base(&self) -> BaseBoard;

    /// The state in which the game begins with `num_players` players.
    fn new_state(&self, num_players: u32) -> (state: BaseGameState)
        requires
            self.can_start(),
        ensures
            state.wf(),
            self.starts(num_players as nat, &state),
    ;

    /// The board of the game, in its carrier.
    fn board(&self) -> (b: BaseBoard)
        ensures
            b == self.board_base(),
    ;
}

/// The start ports of a game with the point at which each lies.
pub open spec fn ports_with_points<B: BoardExt>(board: &B, ports: Seq<B::Port>) -> Seq<
    (B::Port, ScaledPoint),
> {
    Seq::new(ports.len(), |i: int| (ports[i], board.port_point(ports[i])))
}

/// What a game tells of its layout in the plane.
pub trait GameExt: Game where Self::Board: BoardExt {
    /// Starting ports and their positions.
    fn start_ports_and_positions(&self) -> (r: Vec<(Self::Port, ScaledPoint)>)
        ensures
            r@ == ports_with_points(&self.board_spec(), self.start_ports_spec()),
    {
        let ports = self.start_ports();
        let mut placed: Vec<(Self::Port, ScaledPoint)> = Vec::new();
        let mut i: usize = 0;
        while i < ports.len()
            invariant
                i <= ports.len(),
                ports@ == self.start_ports_spec(),
                placed.len() == i,
                forall|j: int|
                    0 <= j < i ==> placed[j] == (ports[j], self.board_spec().port_point(ports[j])),
            decreases ports.len() - i,
        {
            let at = self.board().port_position(&ports[i]);
            placed.push((ports[i], at));
            i += 1;
        }
        assert(placed@ =~= ports_with_points(&self.board_spec(), self.start_ports_spec()));
        placed
    }
}

impl<K, C, B, T> GameExt for PathGame<B, T> where
    K: Kind,
    B: Board<Kind = K, TileConfig = C> + BoardExt,
    T: Tile<Kind = K, TileConfig = C>,
 {
}

/// The allotment that a list of (kind, number) pairs describes; where a
/// kind is listed twice, the later entry counts.
pub open spec fn allotment_of<K: Kind>(pairs: Seq<(K, u32)>) -> Map<u32, u32>
    decreases pairs.len(),
{
    if pairs.len() == 0 {
        Map::empty()
    } else {
        allotment_of(pairs.drop_last()).insert(pairs.last().0.key(), pairs.last().1)
    }
}

/// A definition for a path game.
#[derive(Debug)]
pub struct PathGame<B: Board, T> {
    board: B,
    start_ports: Vec<B::Port>,
    tiles_per_player: FnvHashMap<u32, u32>,
    phantom: PhantomData<T>,
}

impl<K, C, B, T> PathGame<B, T> where
    K: Kind,
    B: Board<Kind = K, TileConfig = C>,
    T: Tile<Kind = K, TileConfig = C>,
 {
    /// The game on `board` in which players start at `start_ports` and are
    /// given the listed number of tiles of each listed kind.
    pub fn new(board: B, start_ports: Vec<B::Port>, tiles_per_player: Vec<(K, u32)>) -> (r: Self)
        ensures
            r.board_spec() == board,
            r.start_ports_spec() == start_ports@,
            r.allotment() == allotment_of(tiles_per_player@),
    {
        let mut counts: FnvHashMap<u32, u32> = table_new();
        let mut i: usize = 0;
        while i < tiles_per_player.len()
            invariant
                i <= tiles_per_player.len(),
                counts@ == allotment_of(tiles_per_player@.subrange(0, i as int)),
            decreases tiles_per_player.len() - i,
        {
            let key: u32 = tiles_per_player[i].0.kind_key();
            let count: u32 = tiles_per_player[i].1;
            proof {
                let next = tiles_per_player@.subrange(0, i + 1);
                assert(next.drop_last() =~= tiles_per_player@.subrange(0, i as int));
            }
            table_insert(&mut counts, key, count);
            i += 1;
        }
        assert(tiles_per_player@.subrange(0, i as int) =~= tiles_per_player@);
        PathGame { board, start_ports, tiles_per_player: counts, phantom: PhantomData }
    }

}

impl<B: Board, T> PathGame<B, T> {
    /// How many tiles of each kind, by the kind's key, a player starts
    /// with.
    pub fn tiles_per_player(&self) -> (r: &FnvHashMap<u32, u32>)
        ensures
            r@ == self.spec_allotment(),
    {
        &self.tiles_per_player
    }

    /// The board of this game.
    pub closed spec fn spec_board(&self) -> B {
        self.board
    }

    /// The ports at which players may start.
    pub closed spec fn spec_start_ports(&self) -> Seq<B::Port> {
        self.start_ports@
    }

    /// How many tiles of each kind, by the kind's key, a player starts with.
    pub closed spec fn spec_allotment(&self) -> Map<u32, u32> {
        self.tiles_per_player@
    }
}

impl<B: Board, T> Clone for PathGame<B, T> {
    fn clone(&self) -> (r: Self)
        ensures
            r.spec_board() == self.spec_board(),
            r.spec_start_ports() == self.spec_start_ports(),
            r.spec_allotment() == self.spec_allotment(),
    {
        PathGame {
            board: self.board.duplicate(),
            start_ports: copy_ports(&self.start_ports),
            tiles_per_player: self.tiles_per_player.clone(),
            phantom: PhantomData,
        }
    }
}

/// A second list of the same ports.
fn copy_ports<P: Port>(ports: &Vec<P>) -> (r: Vec<P>)
    ensures
        r@ == ports@,
{
    let mut copy: Vec<P> = Vec::new();
    let mut i: usize = 0;
    while i < ports.len()
        invariant
            i <= ports.len(),
            copy@ == ports@.subrange(0, i as int),
        decreases ports.len() - i,
    {
        copy.push(ports[i]);
        assert(ports@.subrange(0, i + 1) =~= ports@.subrange(0, i as int).push(ports@[i as int]));
        i += 1;
    }
    assert(ports@.subrange(0, i as int) =~= ports@);
    copy
}

impl<K, C, B, T> Game for PathGame<B, T> where
    K: Kind,
    B: Board<Kind = K, TileConfig = C>,
    T: Tile<Kind = K, TileConfig = C>,
 {
    type TLoc = B::TLoc;

    type Port = B::Port;

    type Kind = B::Kind;

    type GAct = T::GAct;

    type TileConfig = B::TileConfig;

    type Board = B;

    type Tile = T;

    open spec fn board_spec(&self) -> B {
        self.spec_board()
    }

    open spec fn start_ports_spec(&self) -> Seq<B::Port> {
        self.spec_start_ports()
    }

    open spec fn allotment(&self) -> Map<u32, u32> {
        self.spec_allotment()
    }

    fn board(&self) -> (b: &B) {
        &self.board
    }

    fn start_ports(&self) -> (r: Vec<B::Port>) {
        copy_ports(&self.start_ports)
    }

    fn allots(&self, kind: &K) -> (r: bool) {
        table_get(&self.tiles_per_player, kind.kind_key()).is_some()
    }

    fn num_tiles_per_player(&self, kind: &K) -> (n: u32) {
        *table_get(&self.tiles_per_player, kind.kind_key()).unwrap()
    }
}

} // verus!
