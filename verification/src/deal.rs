//! How the tiles of a game are dealt to its players.
use crate::board::Board;
use crate::cyclic::wide_mul;
use crate::game::Game;
use crate::player_state::PlayerState;
use crate::tile::{Kind, Tile, TileModel};
use vstd::prelude::*;

verus! {

/// The positions in `deck` of the tiles of kind `k`, in rising order.
pub open spec fn positions(deck: Seq<TileModel>, k: u32) -> Seq<int>
    decreases deck.len(),
{
    if deck.len() == 0 {
        Seq::empty()
    } else if deck.last().kind == k {
        positions(deck.drop_last(), k).push(deck.len() - 1)
    } else {
        positions(deck.drop_last(), k)
    }
}

/// The tile that player `p` is dealt as number `j` of kind `k`, when every
/// player is given `n` tiles of that kind: the players take the tiles of
/// the kind from the deck in turn, and start again at its top when they
/// reach its end.
pub open spec fn dealt(deck: Seq<TileModel>, k: u32, n: nat, p: nat, j: nat) -> TileModel {
    let pool = positions(deck, k);
    deck[pool[((p * n + j) % pool.len()) as int]]
}

/// The tiles of a game, in the order in which `all_tiles` lists them.
pub open spec fn deck_of<G: Game>(game: &G) -> Seq<TileModel> {
    G::Tile::all_spec(&game.board_spec().config_spec())
}

/// In every tile of a game the connections are a perfect involution: each
/// port leads to another port, which leads back to it.
pub proof fn lemma_all_tiles_paired<G: Game>(game: &G, i: int, p: int)
    requires
        G::Tile::config_ok(&game.board_spec().config_spec()),
        0 <= i < deck_of(game).len(),
        0 <= p < deck_of(game)[i].num_ports(),
    ensures
        deck_of(game)[i].visible,
        deck_of(game)[i].connections.len() == deck_of(game)[i].num_ports(),
        deck_of(game)[i].connections[p] < deck_of(game)[i].num_ports(),
        deck_of(game)[i].connections[p] != p,
        deck_of(game)[i].connections[deck_of(game)[i].connections[p] as int] == p,
{
    let config = game.board_spec().config_spec();
    G::Tile::lemma_all_fit(&config, i);
    G::Tile::lemma_fits_valid(deck_of(game)[i]);
}

/// Whether the tiles of a game can be dealt: the tiles can be listed, the
/// game says how many tiles of each kind of its board a player is given,
/// and there is a tile of each kind of which it gives any.
pub open spec fn playable<G: Game>(game: &G) -> bool {
    &&& G::Tile::config_ok(&game.board_spec().config_spec())
    &&& forall|i: int|
        0 <= i < game.board_spec().kinds_spec().len() ==> {
            let k = #[trigger] game.board_spec().kinds_spec()[i];
            &&& game.allotment().contains_key(k)
            &&& (game.allotment()[k] > 0 ==> positions(deck_of(game), k).len() > 0)
        }
}

/// The listed positions are positions of tiles of the kind asked for.
pub proof fn lemma_positions(deck: Seq<TileModel>, k: u32, t: int)
    requires
        0 <= t < positions(deck, k).len(),
    ensures
        0 <= positions(deck, k)[t] < deck.len(),
        deck[positions(deck, k)[t]].kind == k,
    decreases deck.len(),
{
    if deck.len() > 0 {
        let front = deck.drop_last();
        if t < positions(front, k).len() {
            lemma_positions(front, k, t);
        }
    }
}

/// The hand that player `p` is dealt holds, under each kind of the game,
/// the number of tiles that the game allots, as `dealt` names them.
pub open spec fn is_dealt_hand<G: Game>(game: &G, hand: Map<u32, Seq<G::Tile>>, p: nat) -> bool {
    forall|i: int|
        0 <= i < game.board_spec().kinds_spec().len() ==> {
            let k = #[trigger] game.board_spec().kinds_spec()[i];
            &&& hand.contains_key(k)
            &&& hand[k].len() == game.allotment()[k]
            &&& forall|j: int|
                0 <= j < hand[k].len() ==> (#[trigger] hand[k][j]).model() == dealt(
                    deck_of(game),
                    k,
                    game.allotment()[k] as nat,
                    p,
                    j as nat,
                )
        }
}

/// The positions in the deck of the tiles of the kind with the given key.
pub(crate) fn pool_of<T: Tile>(deck: &Vec<T>, key: u32, Ghost(models): Ghost<Seq<TileModel>>) -> (pool: Vec<
    usize,
>)
    requires
        deck.len() == models.len(),
        forall|i: int| 0 <= i < deck.len() ==> (#[trigger] deck[i]).model() == models[i],
    ensures
        pool.len() == positions(models, key).len(),
        forall|t: int| 0 <= t < pool.len() ==> (#[trigger] pool[t]) as int == positions(models, key)[t],
{
    let mut pool: Vec<usize> = Vec::new();
    let mut i: usize = 0;
    while i < deck.len()
        invariant
            i <= deck.len(),
            deck.len() == models.len(),
            forall|i: int| 0 <= i < deck.len() ==> (#[trigger] deck[i]).model() == models[i],
            pool.len() == positions(models.subrange(0, i as int), key).len(),
            forall|t: int|
                0 <= t < pool.len() ==> (#[trigger] pool[t]) as int == positions(
                    models.subrange(0, i as int),
                    key,
                )[t],
        decreases deck.len() - i,
    {
        proof {
            let next = models.subrange(0, i + 1);
            assert(next.drop_last() =~= models.subrange(0, i as int));
            assert(next.last() == models[i as int]);
        }
        if deck[i].kind().kind_key() == key {
            pool.push(i);
        }
        i += 1;
    }
    assert(models.subrange(0, i as int) =~= models);
    pool
}

/// The hand that player `p` is dealt.
pub(crate) fn deal_hand<G: Game>(
    game: &G,
    deck: &Vec<G::Tile>,
    kinds: &Vec<G::Kind>,
    pools: &Vec<Vec<usize>>,
    p: u32,
) -> (hand: PlayerState<G::Tile>)
    requires
        playable(game),
        deck.len() == deck_of(game).len(),
        forall|i: int| 0 <= i < deck.len() ==> (#[trigger] deck[i]).model() == deck_of(game)[i],
        kinds.len() == game.board_spec().kinds_spec().len(),
        forall|i: int|
            0 <= i < kinds.len() ==> (#[trigger] kinds[i]).key() == game.board_spec().kinds_spec()[i],
        game.board_spec().kinds_spec().no_duplicates(),
        pools.len() == kinds.len(),
        forall|i: int|
            0 <= i < pools.len() ==> {
                &&& (#[trigger] pools[i]).len() == positions(
                    deck_of(game),
                    game.board_spec().kinds_spec()[i],
                ).len()
                &&& forall|t: int|
                    0 <= t < pools[i].len() ==> (#[trigger] pools[i][t]) as int == positions(
                        deck_of(game),
                        game.board_spec().kinds_spec()[i],
                    )[t]
            },
    ensures
        hand.wf(),
        hand.kinds() == game.board_spec().kinds_spec(),
        is_dealt_hand(game, hand@, p as nat),
{
    let ghost keys = game.board_spec().kinds_spec();
    let ghost models = deck_of(game);
    let mut hand = PlayerState::new(game);
    let mut i: usize = 0;
    while i < kinds.len()
        invariant
            playable(game),
            keys == game.board_spec().kinds_spec(),
            models == deck_of(game),
            deck.len() == models.len(),
            forall|i: int| 0 <= i < deck.len() ==> (#[trigger] deck[i]).model() == models[i],
            kinds.len() == keys.len(),
            forall|i: int| 0 <= i < kinds.len() ==> (#[trigger] kinds[i]).key() == keys[i],
            keys.no_duplicates(),
            pools.len() == kinds.len(),
            forall|i: int|
                0 <= i < pools.len() ==> {
                    &&& (#[trigger] pools[i]).len() == positions(models, keys[i]).len()
                    &&& forall|t: int|
                        0 <= t < pools[i].len() ==> (#[trigger] pools[i][t]) as int == positions(
                            models,
                            keys[i],
                        )[t]
                },
            i <= kinds.len(),
            hand.wf(),
            hand.kinds() == keys,
            forall|a: int|
                0 <= a < i ==> {
                    let k = #[trigger] keys[a];
                    &&& hand@[k].len() == game.allotment()[k]
                    &&& forall|j: int|
                        0 <= j < hand@[k].len() ==> (#[trigger] hand@[k][j]).model() == dealt(
                            models,
                            k,
                            game.allotment()[k] as nat,
                            p as nat,
                            j as nat,
                        )
                },
            forall|a: int| i <= a < keys.len() ==> hand@[#[trigger] keys[a]].len() == 0,
        decreases kinds.len() - i,
    {
        let key: u32 = kinds[i].kind_key();
        assert(key == keys[i as int]);
        assert(keys.contains(key));
        let n: u32 = game.num_tiles_per_player(&kinds[i]);
        let pool = &pools[i];
        let ghost spots = positions(models, key);
        let mut j: u32 = 0;
        while j < n
            invariant
                playable(game),
                keys == game.board_spec().kinds_spec(),
                models == deck_of(game),
                deck.len() == models.len(),
                forall|i: int| 0 <= i < deck.len() ==> (#[trigger] deck[i]).model() == models[i],
                keys.no_duplicates(),
                0 <= i < keys.len(),
                key == keys[i as int],
                keys.contains(key),
                n == game.allotment()[key],
                spots == positions(models, key),
                pool.len() == spots.len(),
                forall|t: int| 0 <= t < pool.len() ==> (#[trigger] pool[t]) as int == spots[t],
                j <= n,
                hand.wf(),
                hand.kinds() == keys,
                hand@[key].len() == j,
                forall|t: int|
                    0 <= t < j ==> (#[trigger] hand@[key][t]).model() == dealt(
                        models,
                        key,
                        n as nat,
                        p as nat,
                        t as nat,
                    ),
                forall|a: int|
                    0 <= a < i ==> {
                        let k = #[trigger] keys[a];
                        &&& hand@[k].len() == game.allotment()[k]
                        &&& forall|j: int|
                            0 <= j < hand@[k].len() ==> (#[trigger] hand@[k][j]).model() == dealt(
                                models,
                                k,
                                game.allotment()[k] as nat,
                                p as nat,
                                j as nat,
                            )
                    },
                forall|a: int| i < a < keys.len() ==> hand@[#[trigger] keys[a]].len() == 0,
            decreases n - j,
        {
            let ghost before = hand@;
            assert(spots.len() > 0);
            let from: u64 = wide_mul(p, n);
            assert(from + j <= u64::MAX) by (nonlinear_arith)
                requires
                    from == (p as nat) * (n as nat),
                    p <= 0xffff_ffff,
                    n <= 0xffff_ffff,
                    j < n,
            ;
            let at: usize = ((from + j as u64) % (pool.len() as u64)) as usize;
            proof {
                lemma_positions(models, key, at as int);
            }
            let tile = deck[pool[at]].duplicate();
            hand.add_tile(tile);
            proof {
                assert forall|a: int| 0 <= a < keys.len() && a != i implies hand@[#[trigger] keys[a]]
                    == before[keys[a]] by {}
            }
            j += 1;
        }
        i += 1;
    }
    proof {
        assert forall|a: int| 0 <= a < keys.len() implies hand@.contains_key(#[trigger] keys[a]) by {
            assert(hand.kinds().contains(keys[a]));
        }
    }
    hand
}

/// Whether the tiles of a game can be dealt.
pub fn is_playable<G: Game>(game: &G) -> (ok: bool)
    ensures
        ok == playable(game),
{
    let config = game.board().tile_config();
    if !G::Tile::supports(&config) {
        return false;
    }
    let deck = game.all_tiles();
    let kinds = game.board().all_kinds();
    let ghost keys = game.board_spec().kinds_spec();
    let ghost models = deck_of(game);
    let mut i: usize = 0;
    while i < kinds.len()
        invariant
            G::Tile::config_ok(&game.board_spec().config_spec()),
            keys == game.board_spec().kinds_spec(),
            models == deck_of(game),
            deck.len() == models.len(),
            forall|i: int| 0 <= i < deck.len() ==> (#[trigger] deck[i]).model() == models[i],
            kinds.len() == keys.len(),
            forall|i: int| 0 <= i < kinds.len() ==> (#[trigger] kinds[i]).key() == keys[i],
            i <= kinds.len(),
            forall|a: int|
                0 <= a < i ==> {
                    let k = #[trigger] keys[a];
                    &&& game.allotment().contains_key(k)
                    &&& (game.allotment()[k] > 0 ==> positions(models, k).len() > 0)
                },
        decreases kinds.len() - i,
    {
        let key: u32 = kinds[i].kind_key();
        assert(key == keys[i as int]);
        if !game.allots(&kinds[i]) {
            return false;
        }
        if game.num_tiles_per_player(&kinds[i]) > 0 {
            let pool = pool_of(&deck, key, Ghost(models));
            if pool.len() == 0 {
                return false;
            }
        }
        i += 1;
    }
    true
}

} // verus!
