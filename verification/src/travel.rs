//! How a token moves along the connections of the tiles on the board.
use crate::board::{Board, TLoc};
use crate::tile::{Tile, TileModel};
use vstd::prelude::*;

verus! {

/// Where a player's token stands.
#[derive(Clone, Copy, Debug, PartialEq, Eq, Hash)]
pub enum Standing<P, L> {
    /// The player has not placed a token yet.
    Waiting,
    /// The token stands on `port` and will next enter `facing`.
    Playing { port: P, facing: L },
    /// The token has left the board.
    Out,
}

/// The tile lying at `loc`, if the list of placements holds one there.
pub open spec fn tile_on<L, T: Tile>(placed: Seq<(L, T)>, loc: L) -> Option<TileModel> {
    if exists|i: int| 0 <= i < placed.len() && (#[trigger] placed[i]).0 == loc {
        let i = choose|i: int| 0 <= i < placed.len() && (#[trigger] placed[i]).0 == loc;
        Some(placed[i].1.model())
    } else {
        None
    }
}

/// No location holds two tiles.
pub open spec fn distinct_locs<L, T>(placed: Seq<(L, T)>) -> bool {
    forall|i: int, j: int|
        0 <= i < placed.len() && 0 <= j < placed.len() && i != j ==> (#[trigger] placed[i]).0 != (
        #[trigger] placed[j]).0
}

/// Where no location holds two tiles, the tile at a location is the one
/// that the list holds for it.
pub proof fn lemma_tile_on<L, T: Tile>(placed: Seq<(L, T)>, i: int)
    requires
        distinct_locs(placed),
        0 <= i < placed.len(),
    ensures
        tile_on(placed, placed[i].0) == Some(placed[i].1.model()),
{
    let loc = placed[i].0;
    let j = choose|j: int| 0 <= j < placed.len() && (#[trigger] placed[j]).0 == loc;
    assert(j == i);
}

/// Where a token that stands on `port` and enters `tile` at `facing` comes
/// out: it follows the connection of the port at which it enters to the
/// port at the other end, and faces what lies beyond that port; with
/// nothing beyond, it has left the board. None if the token cannot pass:
/// the port is none of the location, or the tile shows no connection for it.
pub open spec fn step<B: Board>(board: &B, tile: TileModel, port: B::Port, facing: B::TLoc) -> Option<
    Standing<B::Port, B::TLoc>,
> {
    match board.index_spec(facing, port) {
        None => None,
        Some(index) => if tile.visible && index < tile.connections.len() && tile.connections[index as int]
            < board.ports_around() {
            let exit = board.port_at(facing, tile.connections[index as int]);
            match board.across_spec(facing, exit) {
                Some(next) => Some(Standing::Playing { port: exit, facing: next }),
                None => Some(Standing::Out),
            }
        } else {
            None
        },
    }
}

/// Where a token that stands on `port` and faces `facing` ends up: it
/// passes through tile after tile until it faces a location without a tile,
/// leaves the board, cannot pass, or has taken `fuel` steps.
pub open spec fn travel<B: Board, T: Tile>(
    board: &B,
    placed: Seq<(B::TLoc, T)>,
    port: B::Port,
    facing: B::TLoc,
    fuel: nat,
) -> Standing<B::Port, B::TLoc>
    decreases fuel,
{
    if fuel == 0 {
        Standing::Playing { port, facing }
    } else {
        match tile_on(placed, facing) {
            None => Standing::Playing { port, facing },
            Some(tile) => match step(board, tile, port, facing) {
                None => Standing::Playing { port, facing },
                Some(Standing::Playing { port: exit, facing: next }) => travel(
                    board,
                    placed,
                    exit,
                    next,
                    (fuel - 1) as nat,
                ),
                Some(other) => other,
            },
        }
    }
}

/// The number of steps that a token is given: the number of pairs of a
/// placed tile and one of its ports. A token that came in from the
/// perimeter never needs more, as `path::lemma_steps_suffice` shows.
pub open spec fn fuel_for<B: Board, T>(board: &B, placed: Seq<(B::TLoc, T)>) -> nat {
    placed.len() * board.ports_around()
}

/// Where every token stands after all have travelled.
pub open spec fn all_travel<B: Board, T: Tile>(
    board: &B,
    placed: Seq<(B::TLoc, T)>,
    tokens: Seq<Standing<B::Port, B::TLoc>>,
) -> Seq<Standing<B::Port, B::TLoc>> {
    Seq::new(
        tokens.len(),
        |i: int|
            match tokens[i] {
                Standing::Playing { port, facing } => travel(
                    board,
                    placed,
                    port,
                    facing,
                    fuel_for(board, placed),
                ),
                other => other,
            },
    )
}

/// A token that can stand where it stands can stand where it travels to.
pub proof fn lemma_travel_valid<B: Board, T: Tile>(
    board: &B,
    placed: Seq<(B::TLoc, T)>,
    port: B::Port,
    facing: B::TLoc,
    fuel: nat,
)
    requires
        board.index_spec(facing, port).is_some(),
    ensures
        match travel(board, placed, port, facing, fuel) {
            Standing::Playing { port: p, facing: f } => board.index_spec(f, p).is_some(),
            Standing::Out => true,
            Standing::Waiting => false,
        },
    decreases fuel,
{
    if fuel > 0 {
        match tile_on(placed, facing) {
            None => {},
            Some(tile) => match step(board, tile, port, facing) {
                Some(Standing::Playing { port: exit, facing: next }) => {
                    board.lemma_across(facing, exit);
                    lemma_travel_valid(board, placed, exit, next, (fuel - 1) as nat);
                },
                _ => {},
            },
        }
    }
}

/// One step of a token through `tile`.
pub fn step_through<B: Board, T: Tile>(board: &B, tile: &T, port: &B::Port, facing: &B::TLoc) -> (r:
    Option<Standing<B::Port, B::TLoc>>)
    ensures
        r == step(board, tile.model(), *port, *facing),
{
    match board.port_index(facing, port) {
        None => None,
        Some(index) => {
            let ports: u32 = tile.num_ports();
            proof {
                T::lemma_fits_valid(tile.model());
                board.lemma_index(*facing, *port);
            }
            if !tile.visible() || index >= ports {
                None
            } else {
                let out: u32 = tile.output(index);
                match board.tile_port(facing, out) {
                    None => None,
                    Some(exit) => match board.across(facing, &exit) {
                        Some(next) => Some(Standing::Playing { port: exit, facing: next }),
                        None => Some(Standing::Out),
                    },
                }
            }
        },
    }
}

/// Where in the list of placements the tile at `loc` stands.
pub fn find_tile<L: TLoc, T>(placed: &Vec<(L, T)>, loc: &L) -> (r: Option<usize>)
    ensures
        match r {
            Some(i) => i < placed.len() && placed[i as int].0 == *loc && forall|j: int|
                0 <= j < i ==> (#[trigger] placed[j]).0 != *loc,
            None => forall|i: int| 0 <= i < placed.len() ==> (#[trigger] placed[i]).0 != *loc,
        },
{
    let mut i: usize = 0;
    while i < placed.len()
        invariant
            i <= placed.len(),
            forall|j: int| 0 <= j < i ==> (#[trigger] placed[j]).0 != *loc,
        decreases placed.len() - i,
    {
        if placed[i].0.same(loc) {
            return Some(i);
        }
        i += 1;
    }
    None
}

/// Where a token that stands on `port` and faces `facing` ends up.
pub fn travel_from<B: Board, T: Tile>(
    board: &B,
    placed: &Vec<(B::TLoc, T)>,
    port: B::Port,
    facing: B::TLoc,
) -> (r: Standing<B::Port, B::TLoc>)
    requires
        distinct_locs(placed@),
    ensures
        r == travel(board, placed@, port, facing, fuel_for(board, placed@)),
{
    let ports: u32 = board.num_ports_around();
    assert((placed.len() as int) * (ports as int) <= 0xffff_ffff_ffff_ffff * 0xffff_ffff)
        by (nonlinear_arith)
        requires
            0 <= placed.len() <= 0xffff_ffff_ffff_ffff,
            0 <= ports <= 0xffff_ffff,
    ;
    let mut fuel: u128 = (placed.len() as u128) * (ports as u128);
    let ghost full = fuel as nat;
    let mut at: B::Port = port;
    let mut to: B::TLoc = facing;
    while fuel > 0
        invariant
            distinct_locs(placed@),
            full == fuel_for(board, placed@),
            travel(board, placed@, port, facing, full) == travel(board, placed@, at, to, fuel as nat),
        decreases fuel,
    {
        match find_tile(placed, &to) {
            None => {
                return Standing::Playing { port: at, facing: to };
            },
            Some(i) => {
                proof {
                    lemma_tile_on(placed@, i as int);
                }
                match step_through(board, &placed[i].1, &at, &to) {
                    None => {
                        return Standing::Playing { port: at, facing: to };
                    },
                    Some(Standing::Playing { port: exit, facing: next }) => {
                        at = exit;
                        to = next;
                        fuel = fuel - 1;
                    },
                    Some(other) => {
                        return other;
                    },
                }
            },
        }
    }
    Standing::Playing { port: at, facing: to }
}

/// Lets every token travel.
pub fn move_tokens<B: Board, T: Tile>(
    board: &B,
    placed: &Vec<(B::TLoc, T)>,
    tokens: &mut Vec<Standing<B::Port, B::TLoc>>,
)
    requires
        distinct_locs(placed@),
    ensures
        final(tokens)@ == all_travel(board, placed@, old(tokens)@),
{
    let ghost before = tokens@;
    let mut i: usize = 0;
    while i < tokens.len()
        invariant
            distinct_locs(placed@),
            tokens.len() == before.len(),
            i <= tokens.len(),
            forall|j: int| 0 <= j < i ==> tokens[j] == all_travel(board, placed@, before)[j],
            forall|j: int| i <= j < tokens.len() ==> tokens[j] == before[j],
        decreases tokens.len() - i,
    {
        match tokens[i] {
            Standing::Playing { port, facing } => {
                let after = travel_from(board, placed, port, facing);
                tokens.set(i, after);
            },
            _ => {},
        }
        i += 1;
    }
    assert(tokens@ =~= all_travel(board, placed@, before));
}

} // verus!
