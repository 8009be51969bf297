//! Why a token that came in from the perimeter comes to rest before its
//! steps run out: it never passes the same port of the same tile twice.
use crate::board::Board;
use crate::tile::Tile;
use crate::travel::{distinct_locs, fuel_for, lemma_tile_on, step, tile_on, travel, Standing};
use vstd::prelude::*;

verus! {

/// Where a token that stands on `port` and faces `facing` stands after it
/// has passed the tile there, if it passes one and stays on the board.
pub open spec fn onward<B: Board, T: Tile>(
    board: &B,
    placed: Seq<(B::TLoc, T)>,
    port: B::Port,
    facing: B::TLoc,
) -> Option<(B::Port, B::TLoc)> {
    match tile_on(placed, facing) {
        None => None,
        Some(tile) => match step(board, tile, port, facing) {
            Some(Standing::Playing { port: exit, facing: next }) => Some((exit, next)),
            _ => None,
        },
    }
}

/// Where a token that stands on `port` and faces `facing` stands after it
/// has passed `n` tiles, if it passes that many and stays on the board.
pub open spec fn walk<B: Board, T: Tile>(
    board: &B,
    placed: Seq<(B::TLoc, T)>,
    port: B::Port,
    facing: B::TLoc,
    n: nat,
) -> Option<(B::Port, B::TLoc)>
    decreases n,
{
    if n == 0 {
        Some((port, facing))
    } else {
        match walk(board, placed, port, facing, (n - 1) as nat) {
            Some((p, f)) => onward(board, placed, p, f),
            None => None,
        }
    }
}

/// No location holds two tiles, and every tile is of the family `T`.
pub open spec fn well_laid<L, T: Tile>(placed: Seq<(L, T)>) -> bool {
    &&& distinct_locs(placed)
    &&& forall|i: int| 0 <= i < placed.len() ==> T::fits((#[trigger] placed[i]).1.model())
}

/// Whether a token that stands on `port` and faces `facing` stands before a
/// tile, on one of the ports around it.
pub open spec fn before_tile<B: Board, T: Tile>(
    board: &B,
    placed: Seq<(B::TLoc, T)>,
    port: B::Port,
    facing: B::TLoc,
) -> bool {
    tile_on(placed, facing).is_some() && board.index_spec(facing, port).is_some()
}

/// Where in the list of placements the tile at `loc` stands.
pub open spec fn place_in<L, T>(placed: Seq<(L, T)>, loc: L) -> int {
    choose|i: int| 0 <= i < placed.len() && (#[trigger] placed[i]).0 == loc
}

/// The number of the pair of a tile and one of its ports before which a
/// token stands.
pub open spec fn pair_number<B: Board, T: Tile>(
    board: &B,
    placed: Seq<(B::TLoc, T)>,
    port: B::Port,
    facing: B::TLoc,
) -> int {
    place_in(placed, facing) * board.ports_around() + board.index_spec(facing, port).unwrap()
}

/// A token that has passed a tile stood before it, and stands on a port of
/// the location that it faces now.
pub proof fn lemma_onward<B: Board, T: Tile>(
    board: &B,
    placed: Seq<(B::TLoc, T)>,
    port: B::Port,
    facing: B::TLoc,
)
    requires
        onward(board, placed, port, facing).is_some(),
    ensures
        before_tile(board, placed, port, facing),
        board.index_spec(
            onward(board, placed, port, facing).unwrap().1,
            onward(board, placed, port, facing).unwrap().0,
        ).is_some(),
        board.across_spec(facing, onward(board, placed, port, facing).unwrap().0) == Some(
            onward(board, placed, port, facing).unwrap().1,
        ),
{
    let (exit, next) = onward(board, placed, port, facing).unwrap();
    board.lemma_across(facing, exit);
}

/// Two tokens that stand at the same place after passing a tile stood at
/// the same place before.
pub proof fn lemma_onward_one_to_one<B: Board, T: Tile>(
    board: &B,
    placed: Seq<(B::TLoc, T)>,
    a: (B::Port, B::TLoc),
    b: (B::Port, B::TLoc),
)
    requires
        well_laid(placed),
        onward(board, placed, a.0, a.1).is_some(),
        onward(board, placed, a.0, a.1) == onward(board, placed, b.0, b.1),
    ensures
        a == b,
{
    let (exit, next) = onward(board, placed, a.0, a.1).unwrap();
    lemma_onward(board, placed, a.0, a.1);
    lemma_onward(board, placed, b.0, b.1);
    board.lemma_across(a.1, exit);
    board.lemma_across(b.1, exit);
    assert(a.1 == b.1);
    let facing = a.1;
    let at = place_in(placed, facing);
    let tile = placed[at].1.model();
    lemma_tile_on(placed, at);
    T::lemma_fits_valid(tile);
    let ia = board.index_spec(facing, a.0).unwrap();
    let ib = board.index_spec(facing, b.0).unwrap();
    board.lemma_index(facing, a.0);
    board.lemma_index(facing, b.0);
    let oa = tile.connections[ia as int];
    let ob = tile.connections[ib as int];
    board.lemma_port_at(facing, oa);
    board.lemma_port_at(facing, ob);
    assert(oa == ob);
    assert(tile.connections[oa as int] == ia);
    assert(tile.connections[ob as int] == ib);
}

/// No token comes to where a token enters the board by passing a tile.
pub proof fn lemma_entry_is_first<B: Board, T: Tile>(
    board: &B,
    placed: Seq<(B::TLoc, T)>,
    gate: B::Port,
    from: (B::Port, B::TLoc),
)
    requires
        board.entry_spec(gate).is_some(),
    ensures
        onward(board, placed, from.0, from.1) != Some((gate, board.entry_spec(gate).unwrap())),
{
    if onward(board, placed, from.0, from.1) == Some((gate, board.entry_spec(gate).unwrap())) {
        lemma_onward(board, placed, from.0, from.1);
        board.lemma_across(from.1, gate);
        board.lemma_entry(gate);
    }
}

/// A token that has passed `n` tiles has passed any smaller number of
/// tiles before.
pub proof fn lemma_walk_before<B: Board, T: Tile>(
    board: &B,
    placed: Seq<(B::TLoc, T)>,
    port: B::Port,
    facing: B::TLoc,
    n: nat,
    m: nat,
)
    requires
        walk(board, placed, port, facing, n).is_some(),
        m <= n,
    ensures
        walk(board, placed, port, facing, m).is_some(),
        m < n ==> onward(
            board,
            placed,
            walk(board, placed, port, facing, m).unwrap().0,
            walk(board, placed, port, facing, m).unwrap().1,
        ) == walk(board, placed, port, facing, m + 1),
    decreases n - m,
{
    if m < n {
        lemma_walk_before(board, placed, port, facing, n, m + 1);
    }
}

/// A token that entered the board at `gate` is at a new place after every
/// tile that it passes.
pub proof fn lemma_walk_distinct<B: Board, T: Tile>(
    board: &B,
    placed: Seq<(B::TLoc, T)>,
    gate: B::Port,
    i: nat,
    j: nat,
)
    requires
        well_laid(placed),
        board.entry_spec(gate).is_some(),
        i < j,
        walk(board, placed, gate, board.entry_spec(gate).unwrap(), j).is_some(),
    ensures
        walk(board, placed, gate, board.entry_spec(gate).unwrap(), i) != walk(
            board,
            placed,
            gate,
            board.entry_spec(gate).unwrap(),
            j,
        ),
    decreases i,
{
    let first = board.entry_spec(gate).unwrap();
    lemma_walk_before(board, placed, gate, first, j, (j - 1) as nat);
    lemma_walk_before(board, placed, gate, first, j, i);
    let back = walk(board, placed, gate, first, (j - 1) as nat).unwrap();
    if walk(board, placed, gate, first, i) == walk(board, placed, gate, first, j) {
        if i == 0 {
            lemma_entry_is_first(board, placed, gate, back);
        } else {
            lemma_walk_before(board, placed, gate, first, j, (i - 1) as nat);
            let under = walk(board, placed, gate, first, (i - 1) as nat).unwrap();
            lemma_onward_one_to_one(board, placed, under, back);
            lemma_walk_distinct(board, placed, gate, (i - 1) as nat, (j - 1) as nat);
        }
    }
}

/// The pair before which a token stands has a number below the number of
/// pairs, and no two places have the same.
pub proof fn lemma_pair_number<B: Board, T: Tile>(
    board: &B,
    placed: Seq<(B::TLoc, T)>,
    a: (B::Port, B::TLoc),
    b: (B::Port, B::TLoc),
)
    requires
        well_laid(placed),
        before_tile(board, placed, a.0, a.1),
        before_tile(board, placed, b.0, b.1),
    ensures
        0 <= pair_number(board, placed, a.0, a.1) < fuel_for(board, placed),
        pair_number(board, placed, a.0, a.1) == pair_number(board, placed, b.0, b.1) ==> a == b,
{
    let around = board.ports_around() as int;
    let ia = place_in(placed, a.1);
    let ib = place_in(placed, b.1);
    let xa = board.index_spec(a.1, a.0).unwrap() as int;
    let xb = board.index_spec(b.1, b.0).unwrap() as int;
    board.lemma_index(a.1, a.0);
    board.lemma_index(b.1, b.0);
    assert(0 <= ia * around + xa < placed.len() * around) by (nonlinear_arith)
        requires
            0 <= ia < placed.len(),
            0 <= xa < around,
    ;
    if ia * around + xa == ib * around + xb {
        assert(ia == ib && xa == xb) by (nonlinear_arith)
            requires
                ia * around + xa == ib * around + xb,
                0 <= xa < around,
                0 <= xb < around,
        ;
    }
}

/// A sequence of different numbers below `n` has at most `n` members.
pub proof fn lemma_pigeons(numbers: Seq<int>, n: nat)
    requires
        numbers.no_duplicates(),
        forall|i: int| 0 <= i < numbers.len() ==> 0 <= #[trigger] numbers[i] < n,
    ensures
        numbers.len() <= n,
{
    numbers.unique_seq_to_set();
    vstd::set_lib::lemma_int_range(0, n as int);
    assert(numbers.to_set().subset_of(vstd::set_lib::set_int_range(0, n as int))) by {
        assert forall|x: int| numbers.to_set().contains(x) implies vstd::set_lib::set_int_range(
            0,
            n as int,
        ).contains(x) by {
            let i = choose|i: int| 0 <= i < numbers.len() && numbers[i] == x;
        }
    }
    vstd::set_lib::lemma_len_subset(numbers.to_set(), vstd::set_lib::set_int_range(0, n as int));
}

/// A token that entered the board at `gate` and stands before a tile after
/// passing `k` tiles has passed fewer tiles than there are pairs of a tile
/// and a port.
pub proof fn lemma_walk_short<B: Board, T: Tile>(
    board: &B,
    placed: Seq<(B::TLoc, T)>,
    gate: B::Port,
    k: nat,
)
    requires
        well_laid(placed),
        board.entry_spec(gate).is_some(),
        walk(board, placed, gate, board.entry_spec(gate).unwrap(), k).is_some(),
        before_tile(
            board,
            placed,
            walk(board, placed, gate, board.entry_spec(gate).unwrap(), k).unwrap().0,
            walk(board, placed, gate, board.entry_spec(gate).unwrap(), k).unwrap().1,
        ),
    ensures
        k < fuel_for(board, placed),
{
    let first = board.entry_spec(gate).unwrap();
    let numbers = Seq::new(
        k + 1,
        |i: int|
            pair_number(
                board,
                placed,
                walk(board, placed, gate, first, i as nat).unwrap().0,
                walk(board, placed, gate, first, i as nat).unwrap().1,
            ),
    );
    let last = walk(board, placed, gate, first, k).unwrap();
    assert forall|i: int| 0 <= i <= k implies before_tile(
        board,
        placed,
        (#[trigger] walk(board, placed, gate, first, i as nat)).unwrap().0,
        walk(board, placed, gate, first, i as nat).unwrap().1,
    ) by {
        lemma_walk_before(board, placed, gate, first, k, i as nat);
        if i < k {
            let at = walk(board, placed, gate, first, i as nat).unwrap();
            lemma_walk_before(board, placed, gate, first, k, (i + 1) as nat);
            lemma_onward(board, placed, at.0, at.1);
        }
    }
    assert forall|i: int| 0 <= i < numbers.len() implies 0 <= #[trigger] numbers[i] < fuel_for(
        board,
        placed,
    ) by {
        lemma_walk_before(board, placed, gate, first, k, i as nat);
        let at = walk(board, placed, gate, first, i as nat);
        assert(before_tile(board, placed, at.unwrap().0, at.unwrap().1));
        lemma_pair_number(board, placed, at.unwrap(), last);
    }
    assert forall|i: int, j: int| 0 <= i < numbers.len() && 0 <= j < numbers.len() && i != j implies numbers[i]
        != numbers[j] by {
        lemma_walk_before(board, placed, gate, first, k, i as nat);
        lemma_walk_before(board, placed, gate, first, k, j as nat);
        let a = walk(board, placed, gate, first, i as nat);
        let b = walk(board, placed, gate, first, j as nat);
        assert(before_tile(board, placed, a.unwrap().0, a.unwrap().1));
        assert(before_tile(board, placed, b.unwrap().0, b.unwrap().1));
        lemma_pair_number(board, placed, a.unwrap(), b.unwrap());
        if i < j {
            lemma_walk_before(board, placed, gate, first, k, j as nat);
            lemma_walk_distinct(board, placed, gate, i as nat, j as nat);
        } else {
            lemma_walk_before(board, placed, gate, first, k, i as nat);
            lemma_walk_distinct(board, placed, gate, j as nat, i as nat);
        }
    }
    lemma_pigeons(numbers, fuel_for(board, placed));
}

/// A token that entered the board at `gate` and has passed `k` tiles ends
/// up at the same place whatever number of steps it is given, from the
/// number of pairs of a tile and a port less `k`.
pub proof fn lemma_travel_settles<B: Board, T: Tile>(
    board: &B,
    placed: Seq<(B::TLoc, T)>,
    gate: B::Port,
    k: nat,
    fuel: nat,
)
    requires
        well_laid(placed),
        board.entry_spec(gate).is_some(),
        walk(board, placed, gate, board.entry_spec(gate).unwrap(), k).is_some(),
        k <= fuel_for(board, placed),
        fuel >= fuel_for(board, placed) - k,
    ensures
        travel(
            board,
            placed,
            walk(board, placed, gate, board.entry_spec(gate).unwrap(), k).unwrap().0,
            walk(board, placed, gate, board.entry_spec(gate).unwrap(), k).unwrap().1,
            fuel,
        ) == travel(
            board,
            placed,
            walk(board, placed, gate, board.entry_spec(gate).unwrap(), k).unwrap().0,
            walk(board, placed, gate, board.entry_spec(gate).unwrap(), k).unwrap().1,
            (fuel_for(board, placed) - k) as nat,
        ),
    decreases fuel_for(board, placed) - k,
{
    let first = board.entry_spec(gate).unwrap();
    let (port, facing) = walk(board, placed, gate, first, k).unwrap();
    let least = (fuel_for(board, placed) - k) as nat;
    match tile_on(placed, facing) {
        None => {},
        Some(tile) => {
            match step(board, tile, port, facing) {
                None => {},
                Some(after) => {
                    lemma_walk_short(board, placed, gate, k);
                    match after {
                        Standing::Playing { port: exit, facing: next } => {
                            assert(walk(board, placed, gate, first, k + 1) == Some((exit, next)));
                            lemma_travel_settles(board, placed, gate, k + 1, (fuel - 1) as nat);
                        },
                        _ => {},
                    }
                },
            }
        },
    }
}

/// A token that came in from the perimeter does not run out of steps: with
/// more steps than the number of pairs of a tile and a port it ends up
/// where it ends up with that number.
pub proof fn lemma_steps_suffice<B: Board, T: Tile>(
    board: &B,
    placed: Seq<(B::TLoc, T)>,
    gate: B::Port,
    k: nat,
    more: nat,
)
    requires
        well_laid(placed),
        board.entry_spec(gate).is_some(),
        walk(board, placed, gate, board.entry_spec(gate).unwrap(), k).is_some(),
    ensures
        travel(
            board,
            placed,
            walk(board, placed, gate, board.entry_spec(gate).unwrap(), k).unwrap().0,
            walk(board, placed, gate, board.entry_spec(gate).unwrap(), k).unwrap().1,
            fuel_for(board, placed) + more,
        ) == travel(
            board,
            placed,
            walk(board, placed, gate, board.entry_spec(gate).unwrap(), k).unwrap().0,
            walk(board, placed, gate, board.entry_spec(gate).unwrap(), k).unwrap().1,
            fuel_for(board, placed),
        ),
{
    let first = board.entry_spec(gate).unwrap();
    if k > 0 {
        lemma_walk_before(board, placed, gate, first, k, (k - 1) as nat);
        let under = walk(board, placed, gate, first, (k - 1) as nat).unwrap();
        lemma_onward(board, placed, under.0, under.1);
        lemma_walk_short(board, placed, gate, (k - 1) as nat);
    }
    lemma_travel_settles(board, placed, gate, k, fuel_for(board, placed) + more);
    lemma_travel_settles(board, placed, gate, k, fuel_for(board, placed));
}

} // verus!
