//! The state of a session: the tiles on the board, the players' hands and
//! tokens, whose turn it is, and whether the game has ended.
use crate::board::{Board, Port, TLoc};
use crate::deal::{deal_hand, deck_of, is_dealt_hand, playable, pool_of, positions};
use crate::error::ErrorKind;
use crate::game::Game;
use crate::player_state::{empty_hand, without_tile, PlayerState};
use crate::tile::{GAct, Kind, Tile, TileModel};
use crate::turn::{
    count_in, count_playing, lemma_count_in_witness, lemma_next_in_found, lemma_next_in_range,
    next_in, next_player,
};
use crate::travel::{
    all_travel, distinct_locs, find_tile, fuel_for, lemma_tile_on, lemma_travel_valid, move_tokens,
    tile_on, Standing,
};
use vstd::prelude::*;

verus! {

/// Whether the game has ended: at most one player is left of several, or
/// none of one, or no player who is left holds a tile.
pub open spec fn finished<P, L, T: Tile>(tokens: Seq<Standing<P, L>>, hands: Seq<PlayerState<T>>) -> bool {
    ||| count_in(tokens) <= (if tokens.len() >= 2 {
        1nat
    } else {
        0nat
    })
    ||| forall|q: int|
        0 <= q < tokens.len() && !(tokens[q] is Out) ==> (#[trigger] hands[q]).total() == 0
}

/// The hands after the players whose token has left the board have given
/// up their tiles.
pub open spec fn drained<P, L, T: Tile>(
    hands: Seq<PlayerState<T>>,
    tokens: Seq<Standing<P, L>>,
    after: Seq<PlayerState<T>>,
) -> bool {
    &&& after.len() == hands.len()
    &&& forall|q: int|
        0 <= q < hands.len() ==> {
            &&& (#[trigger] after[q]).wf()
            &&& after[q].kinds() == hands[q].kinds()
            &&& after[q]@ == (if tokens[q] is Out {
                empty_hand::<T>(hands[q].kinds())
            } else {
                hands[q]@
            })
        }
}

/// Takes the tiles from the players whose token has left the board.
fn drain_out<P: Copy, L: Copy, T: Tile>(hands: &mut Vec<PlayerState<T>>, tokens: &Vec<Standing<P, L>>)
    requires
        old(hands).len() == tokens.len(),
        forall|q: int| 0 <= q < old(hands).len() ==> (#[trigger] old(hands)[q]).wf(),
    ensures
        drained(old(hands)@, tokens@, final(hands)@),
{
    let ghost before = hands@;
    let mut i: usize = 0;
    while i < hands.len()
        invariant
            hands.len() == before.len(),
            before.len() == tokens.len(),
            i <= hands.len(),
            forall|q: int| 0 <= q < before.len() ==> (#[trigger] before[q]).wf(),
            forall|q: int|
                0 <= q < i ==> {
                    &&& (#[trigger] hands[q]).wf()
                    &&& hands[q].kinds() == before[q].kinds()
                    &&& hands[q]@ == (if tokens[q] is Out {
                        empty_hand::<T>(before[q].kinds())
                    } else {
                        before[q]@
                    })
                },
            forall|q: int| i <= q < hands.len() ==> hands[q] == before[q],
        decreases hands.len() - i,
    {
        let ghost now = hands@;
        assert(hands[i as int] == before[i as int]);
        match tokens[i] {
            Standing::Out => {
                let _ = hands[i].remove_all_tiles();
            },
            _ => {},
        }
        assert(forall|q: int| 0 <= q < hands.len() && q != i ==> hands[q] == now[q]);
        i += 1;
    }
}

/// Whether the game has ended.
fn is_finished<P: Copy, L: Copy, T: Tile>(
    tokens: &Vec<Standing<P, L>>,
    hands: &Vec<PlayerState<T>>,
) -> (r: bool)
    requires
        hands.len() == tokens.len(),
        forall|q: int| 0 <= q < hands.len() ==> (#[trigger] hands[q]).wf(),
    ensures
        r == finished(tokens@, hands@),
{
    let left: usize = count_playing(tokens);
    let least: usize = if tokens.len() >= 2 {
        1
    } else {
        0
    };
    if left <= least {
        return true;
    }
    let mut i: usize = 0;
    while i < tokens.len()
        invariant
            hands.len() == tokens.len(),
            forall|q: int| 0 <= q < hands.len() ==> (#[trigger] hands[q]).wf(),
            i <= tokens.len(),
            count_in(tokens@) > (if tokens.len() >= 2 {
                1nat
            } else {
                0nat
            }),
            forall|q: int| 0 <= q < i && !(tokens[q] is Out) ==> (#[trigger] hands[q]).total() == 0,
        decreases tokens.len() - i,
    {
        match tokens[i] {
            Standing::Out => {},
            _ => {
                if !hands[i].is_empty() {
                    assert(!(tokens@[i as int] is Out) && hands@[i as int].total() != 0);
                    return false;
                }
            },
        }
        i += 1;
    }
    true
}

/// The full state of a session of a game.
#[derive(Debug)]
pub struct GameState<G: Game> {
    board: G::Board,
    start_ports: Vec<G::Port>,
    placed: Vec<(G::TLoc, G::Tile)>,
    hands: Vec<PlayerState<G::Tile>>,
    tokens: Vec<Standing<G::Port, G::TLoc>>,
    turn: u32,
    over: bool,
}

impl<G: Game> GameState<G> {
    /// The board that the game is played on.
    pub closed spec fn board(&self) -> G::Board {
        self.board
    }

    /// The ports at which a token may be placed.
    pub closed spec fn start_ports(&self) -> Seq<G::Port> {
        self.start_ports@
    }

    /// The tiles on the board with their locations, in the order in which
    /// they were placed.
    pub closed spec fn placed(&self) -> Seq<(G::TLoc, G::Tile)> {
        self.placed@
    }

    /// The hands of the players.
    pub closed spec fn hands(&self) -> Seq<PlayerState<G::Tile>> {
        self.hands@
    }

    /// Where the tokens of the players stand.
    pub closed spec fn tokens(&self) -> Seq<Standing<G::Port, G::TLoc>> {
        self.tokens@
    }

    /// The player whose turn it is.
    pub closed spec fn turn(&self) -> nat {
        self.turn as nat
    }

    /// Whether the game has ended.
    pub closed spec fn is_over(&self) -> bool {
        self.over
    }

    /// Number of players.
    pub open spec fn num_players(&self) -> nat {
        self.tokens().len()
    }

    /// The tile lying at `loc`, if there is one.
    pub open spec fn tile_at(&self, loc: G::TLoc) -> Option<TileModel> {
        tile_on(self.placed(), loc)
    }

    /// Whether the parts of a state fit together: every player has a hand
    /// and a token, the turn is a player's, and of one who is still in the
    /// game unless the game has ended; the hands have the kinds of the
    /// board; no location holds two tiles, the tiles lie on the board and
    /// show their connections; and every token on the board stands on a
    /// port of the location that it faces.
    pub open spec fn parts_fit(
        board: &G::Board,
        placed: Seq<(G::TLoc, G::Tile)>,
        hands: Seq<PlayerState<G::Tile>>,
        tokens: Seq<Standing<G::Port, G::TLoc>>,
        turn: nat,
        over: bool,
    ) -> bool {
        &&& hands.len() == tokens.len()
        &&& tokens.len() <= u32::MAX
        &&& (tokens.len() > 0 ==> turn < tokens.len())
        &&& (tokens.len() == 0 ==> turn == 0)
        &&& (!over ==> tokens.len() > 0 && !(tokens[turn as int] is Out))
        &&& forall|p: int| 0 <= p < hands.len() ==> (#[trigger] hands[p]).kinds() == board.kinds_spec()
        &&& distinct_locs(placed)
        &&& forall|i: int|
            0 <= i < placed.len() ==> {
                &&& board.has_loc((#[trigger] placed[i]).0)
                &&& G::Tile::fits(placed[i].1.model())
                &&& placed[i].1.model().visible
            }
        &&& forall|p: int|
            0 <= p < tokens.len() ==> (match #[trigger] tokens[p] {
                Standing::Playing { port, facing } => board.index_spec(facing, port).is_some(),
                _ => true,
            })
    }

    /// Validity of a state: its hands are valid and its parts fit together.
    pub open spec fn wf(&self) -> bool {
        &&& forall|p: int| 0 <= p < self.hands().len() ==> (#[trigger] self.hands()[p]).wf()
        &&& Self::parts_fit(
            &self.board(),
            self.placed(),
            self.hands(),
            self.tokens(),
            self.turn(),
            self.is_over(),
        )
    }

    /// Whether this is the state in which `game` begins with `num_players`
    /// players.
    pub open spec fn begins(&self, game: &G, num_players: nat) -> bool {
        &&& self.board() == game.board_spec()
        &&& self.start_ports() == game.start_ports_spec()
        &&& self.placed().len() == 0
        &&& self.num_players() == num_players
        &&& self.hands().len() == num_players
        &&& self.turn() == 0
        &&& self.is_over() == (num_players == 0)
        &&& forall|p: int| 0 <= p < num_players ==> (#[trigger] self.tokens()[p]) is Waiting
        &&& forall|p: int|
            0 <= p < num_players ==> is_dealt_hand(game, (#[trigger] self.hands()[p])@, p as nat)
    }

    /// The state in which a game of `num_players` players begins: no tile
    /// lies on the board, no token is placed, every player holds the tiles
    /// dealt to them, and the first player is to move.
    pub fn new(game: &G, num_players: u32) -> (r: Self)
        requires
            playable(game),
        ensures
            r.wf(),
            r.begins(game, num_players as nat),
    {
        let deck = game.all_tiles();
        let kinds = game.board().all_kinds();
        let ghost keys = game.board_spec().kinds_spec();
        let ghost models = deck_of(game);
        let mut pools: Vec<Vec<usize>> = Vec::new();
        let mut i: usize = 0;
        while i < kinds.len()
            invariant
                keys == game.board_spec().kinds_spec(),
                models == deck_of(game),
                deck.len() == models.len(),
                forall|i: int| 0 <= i < deck.len() ==> (#[trigger] deck[i]).model() == models[i],
                kinds.len() == keys.len(),
                forall|i: int| 0 <= i < kinds.len() ==> (#[trigger] kinds[i]).key() == keys[i],
                i <= kinds.len(),
                pools.len() == i,
                forall|a: int|
                    0 <= a < i ==> {
                        &&& (#[trigger] pools[a]).len() == positions(models, keys[a]).len()
                        &&& forall|t: int|
                            0 <= t < pools[a].len() ==> (#[trigger] pools[a][t]) as int
                                == positions(models, keys[a])[t]
                    },
            decreases kinds.len() - i,
        {
            let pool = pool_of(&deck, kinds[i].kind_key(), Ghost(models));
            pools.push(pool);
            i += 1;
        }
        let mut hands: Vec<PlayerState<G::Tile>> = Vec::new();
        let mut tokens: Vec<Standing<G::Port, G::TLoc>> = Vec::new();
        let mut p: u32 = 0;
        while p < num_players
            invariant
                p <= num_players,
                playable(game),
                keys == game.board_spec().kinds_spec(),
                models == deck_of(game),
                deck.len() == models.len(),
                forall|i: int| 0 <= i < deck.len() ==> (#[trigger] deck[i]).model() == models[i],
                kinds.len() == keys.len(),
                forall|i: int| 0 <= i < kinds.len() ==> (#[trigger] kinds[i]).key() == keys[i],
                keys.no_duplicates(),
                pools.len() == kinds.len(),
                forall|a: int|
                    0 <= a < pools.len() ==> {
                        &&& (#[trigger] pools[a]).len() == positions(models, keys[a]).len()
                        &&& forall|t: int|
                            0 <= t < pools[a].len() ==> (#[trigger] pools[a][t]) as int
                                == positions(models, keys[a])[t]
                    },
                hands.len() == p,
                tokens.len() == p,
                forall|q: int| 0 <= q < p ==> (#[trigger] tokens[q]) is Waiting,
                forall|q: int|
                    0 <= q < p ==> {
                        &&& (#[trigger] hands[q]).wf()
                        &&& hands[q].kinds() == keys
                        &&& is_dealt_hand(game, hands[q]@, q as nat)
                    },
            decreases num_players - p,
        {
            let hand = deal_hand(game, &deck, &kinds, &pools, p);
            hands.push(hand);
            tokens.push(Standing::Waiting);
            p += 1;
        }
        GameState {
            board: game.board().duplicate(),
            start_ports: game.start_ports(),
            placed: Vec::new(),
            hands,
            tokens,
            turn: 0,
            over: num_players == 0,
        }
    }

    /// Number of players.
    pub fn player_count(&self) -> (n: u32)
        requires
            self.wf(),
        ensures
            n == self.num_players(),
    {
        self.tokens.len() as u32
    }

    /// Number of players.
    pub fn token_count(&self) -> (n: usize)
        ensures
            n == self.num_players(),
    {
        self.tokens.len()
    }

    /// The player whose turn it is.
    pub fn current_player(&self) -> (p: u32)
        ensures
            p == self.turn(),
    {
        self.turn
    }

    /// Whether the game has ended.
    pub fn game_over(&self) -> (r: bool)
        ensures
            r == self.is_over(),
    {
        self.over
    }

    /// Where the token of `player` stands.
    pub fn standing(&self, player: u32) -> (r: Standing<G::Port, G::TLoc>)
        requires
            player < self.num_players(),
        ensures
            r == self.tokens()[player as int],
    {
        self.tokens[player as usize]
    }

    /// The hand of `player`.
    pub fn hand(&self, player: u32) -> (r: &PlayerState<G::Tile>)
        requires
            self.wf(),
            player < self.num_players(),
        ensures
            *r == self.hands()[player as int],
            r.wf(),
    {
        &self.hands[player as usize]
    }

    /// The tile lying at `loc`, if there is one.
    pub fn tile(&self, loc: &G::TLoc) -> (r: Option<&G::Tile>)
        requires
            self.wf(),
        ensures
            self.tile_at(*loc) == (match r {
                Some(t) => Some(t.model()),
                None => None,
            }),
    {
        match find_tile(&self.placed, loc) {
            Some(i) => {
                proof {
                    lemma_tile_on(self.placed(), i as int);
                }
                Some(&self.placed[i].1)
            },
            None => None,
        }
    }

    /// Whether some player has not placed a token yet.
    pub open spec fn someone_waits(&self) -> bool {
        exists|q: int| 0 <= q < self.tokens().len() && (#[trigger] self.tokens()[q]) is Waiting
    }

    /// Why `player` may not move, if so.
    pub open spec fn turn_refusal(&self, player: nat) -> Option<ErrorKind> {
        if self.is_over() {
            Some(ErrorKind::GameOver)
        } else if player >= self.num_players() || player != self.turn() {
            Some(ErrorKind::WrongTurn)
        } else {
            None
        }
    }

    /// Why `player` may not place a token on `port`, if so.
    pub open spec fn token_refusal(&self, player: nat, port: G::Port) -> Option<ErrorKind> {
        if self.turn_refusal(player).is_some() {
            self.turn_refusal(player)
        } else if !(self.tokens()[player as int] is Waiting) {
            Some(ErrorKind::TokenPlaced)
        } else if !self.start_ports().contains(port) || self.board().entry_spec(port).is_none() {
            Some(ErrorKind::IllegalPort)
        } else {
            None
        }
    }

    /// Why `player` may not place the tile at `index` of kind `kind` of the
    /// hand at `loc`, if so.
    pub open spec fn tile_refusal(&self, player: nat, kind: u32, index: nat, loc: G::TLoc) -> Option<
        ErrorKind,
    > {
        if self.turn_refusal(player).is_some() {
            self.turn_refusal(player)
        } else if self.someone_waits() {
            Some(ErrorKind::TokenMissing)
        } else if !self.board().has_loc(loc) {
            Some(ErrorKind::IllegalLocation)
        } else if self.tile_at(loc).is_some() {
            Some(ErrorKind::Occupied)
        } else if !self.hands()[player as int]@.contains_key(kind) {
            Some(ErrorKind::UnknownKind)
        } else if index >= self.hands()[player as int]@[kind].len() {
            Some(ErrorKind::IndexOutOfRange)
        } else if !self.hands()[player as int]@[kind][index as int].model().visible {
            Some(ErrorKind::HiddenTile)
        } else {
            None
        }
    }

    /// Why `player` may not pass, if so.
    pub open spec fn pass_refusal(&self, player: nat) -> Option<ErrorKind> {
        if self.turn_refusal(player).is_some() {
            self.turn_refusal(player)
        } else if self.tokens()[player as int] is Waiting {
            Some(ErrorKind::TokenMissing)
        } else if self.hands()[player as int].total() > 0 {
            Some(ErrorKind::TilesLeft)
        } else {
            None
        }
    }

    /// Whether `after` is this state after `player` has placed a token on
    /// `port`: the token stands on the port and faces the location that the
    /// port belongs to, the turn has passed on, and nothing else has
    /// changed.
    pub open spec fn token_placed(&self, after: &Self, player: nat, port: G::Port) -> bool {
        &&& after.board() == self.board()
        &&& after.start_ports() == self.start_ports()
        &&& after.placed() == self.placed()
        &&& after.hands() == self.hands()
        &&& after.is_over() == self.is_over()
        &&& after.tokens() == self.tokens().update(
            player as int,
            Standing::Playing { port, facing: self.board().entry_spec(port).unwrap() },
        )
        &&& after.turn() == next_in(after.tokens(), self.turn(), self.num_players())
    }

    /// Whether `after` is this state after the player to move has passed:
    /// the turn has passed on, the game has ended if it is finished, and
    /// nothing else has changed.
    pub open spec fn turn_passed(&self, after: &Self) -> bool {
        &&& after.board() == self.board()
        &&& after.start_ports() == self.start_ports()
        &&& after.placed() == self.placed()
        &&& after.hands() == self.hands()
        &&& after.tokens() == self.tokens()
        &&& after.is_over() == finished(self.tokens(), self.hands())
        &&& after.turn() == next_in(self.tokens(), self.turn(), self.num_players())
    }

    /// Whether `after` is this state after `player` has placed the tile at
    /// `index` of kind `kind` of the hand at `loc`, transformed by `action`:
    /// the tile lies there, every token has travelled, the players whose
    /// token has left the board hold no tile, the game has ended if it is
    /// finished, and the turn has passed on.
    pub open spec fn tile_placed(
        &self,
        after: &Self,
        player: nat,
        kind: u32,
        index: nat,
        action: &G::GAct,
        loc: G::TLoc,
    ) -> bool {
        &&& after.board() == self.board()
        &&& after.start_ports() == self.start_ports()
        &&& after.placed().len() == self.placed().len() + 1
        &&& after.placed().drop_last() == self.placed()
        &&& after.placed().last().0 == loc
        &&& after.placed().last().1.model() == G::Tile::act_spec(
            self.hands()[player as int]@[kind][index as int].model(),
            action,
        )
        &&& after.tokens() == all_travel(&self.board(), after.placed(), self.tokens())
        &&& after.hands().len() == self.hands().len()
        &&& forall|q: int|
            0 <= q < self.hands().len() ==> (#[trigger] after.hands()[q])@ == self.hand_after(
                q,
                player,
                kind,
                index,
                after.tokens(),
            )
        &&& after.is_over() == finished(after.tokens(), after.hands())
        &&& after.turn() == next_in(after.tokens(), self.turn(), self.num_players())
    }

    /// Once the game has ended it stays ended: every move is refused, and
    /// a refused move leaves the state as it is.
    pub proof fn lemma_over_stays(
        &self,
        player: nat,
        port: G::Port,
        kind: u32,
        index: nat,
        loc: G::TLoc,
    )
        requires
            self.is_over(),
        ensures
            self.token_refusal(player, port) == Some(ErrorKind::GameOver),
            self.tile_refusal(player, kind, index, loc) == Some(ErrorKind::GameOver),
            self.pass_refusal(player) == Some(ErrorKind::GameOver),
    {
    }

    /// Why `player` may not move, if so.
    fn check_turn(&self, player: u32) -> (r: Option<ErrorKind>)
        requires
            self.wf(),
        ensures
            r == self.turn_refusal(player as nat),
    {
        if self.over {
            Some(ErrorKind::GameOver)
        } else if player as usize >= self.tokens.len() || player != self.turn {
            Some(ErrorKind::WrongTurn)
        } else {
            None
        }
    }

    /// Whether `port` is one of the start ports.
    fn is_start_port(&self, port: &G::Port) -> (r: bool)
        ensures
            r == self.start_ports().contains(*port),
    {
        let mut i: usize = 0;
        while i < self.start_ports.len()
            invariant
                i <= self.start_ports.len(),
                forall|j: int| 0 <= j < i ==> self.start_ports@[j] != *port,
            decreases self.start_ports.len() - i,
        {
            if self.start_ports[i].same(port) {
                return true;
            }
            i += 1;
        }
        false
    }

    /// Whether some player has not placed a token yet.
    fn does_someone_wait(&self) -> (r: bool)
        ensures
            r == self.someone_waits(),
    {
        let mut i: usize = 0;
        while i < self.tokens.len()
            invariant
                i <= self.tokens.len(),
                forall|q: int| 0 <= q < i ==> !((#[trigger] self.tokens@[q]) is Waiting),
            decreases self.tokens.len() - i,
        {
            match self.tokens[i] {
                Standing::Waiting => {
                    return true;
                },
                _ => {},
            }
            i += 1;
        }
        false
    }

    /// Places the token of `player` on the start port `port`, facing the
    /// location that the port belongs to, and passes the turn on; or
    /// refuses, and leaves the state as it is.
    pub fn place_token(&mut self, player: u32, port: &G::Port) -> (r: Result<(), ErrorKind>)
        requires
            old(self).wf(),
        ensures
            final(self).wf(),
            match old(self).token_refusal(player as nat, *port) {
                Some(e) => r == Err::<(), ErrorKind>(e) && *final(self) == *old(self),
                None => r.is_ok() && old(self).token_placed(final(self), player as nat, *port),
            },
    {
        match self.check_turn(player) {
            Some(e) => {
                return Err(e);
            },
            None => {},
        }
        match self.tokens[player as usize] {
            Standing::Waiting => {},
            _ => {
                return Err(ErrorKind::TokenPlaced);
            },
        }
        if !self.is_start_port(port) {
            return Err(ErrorKind::IllegalPort);
        }
        let facing: G::TLoc = match self.board.entry(port) {
            None => {
                return Err(ErrorKind::IllegalPort);
            },
            Some(loc) => loc,
        };
        proof {
            self.board().lemma_entry(*port);
        }
        self.tokens.set(player as usize, Standing::Playing { port: *port, facing });
        proof {
            let n = self.tokens().len();
            lemma_next_in_range(self.tokens(), self.turn(), n);
            lemma_next_in_found(self.tokens(), self.turn(), n, player as nat);
        }
        self.turn = next_player(&self.tokens, self.turn);
        Ok(())
    }

    /// Lets `player` pass, who holds no tile, and ends the game if no
    /// player who is left holds any; or refuses, and leaves the state as it
    /// is.
    pub fn pass_turn(&mut self, player: u32) -> (r: Result<(), ErrorKind>)
        requires
            old(self).wf(),
        ensures
            final(self).wf(),
            match old(self).pass_refusal(player as nat) {
                Some(e) => r == Err::<(), ErrorKind>(e) && *final(self) == *old(self),
                None => r.is_ok() && old(self).turn_passed(final(self)),
            },
    {
        match self.check_turn(player) {
            Some(e) => {
                return Err(e);
            },
            None => {},
        }
        match self.tokens[player as usize] {
            Standing::Waiting => {
                return Err(ErrorKind::TokenMissing);
            },
            _ => {},
        }
        if !self.hands[player as usize].is_empty() {
            return Err(ErrorKind::TilesLeft);
        }
        proof {
            let n = self.tokens().len();
            lemma_next_in_range(self.tokens(), self.turn(), n);
            lemma_next_in_found(self.tokens(), self.turn(), n, player as nat);
        }
        self.over = is_finished(&self.tokens, &self.hands);
        self.turn = next_player(&self.tokens, self.turn);
        Ok(())
    }

    /// The hand of player `q` after `player` has placed the tile at `index`
    /// of kind `kind` and the tokens stand as `tokens` say: empty if the
    /// token of `q` has left the board, without the placed tile if `q` is
    /// `player`, else as it was.
    pub open spec fn hand_after(
        &self,
        q: int,
        player: nat,
        kind: u32,
        index: nat,
        tokens: Seq<Standing<G::Port, G::TLoc>>,
    ) -> Map<u32, Seq<G::Tile>> {
        if tokens[q] is Out {
            empty_hand::<G::Tile>(self.hands()[q].kinds())
        } else if q == player {
            without_tile(self.hands()[q]@, kind, index as int)
        } else {
            self.hands()[q]@
        }
    }

    /// Takes the tile at `index` of kind `kind` from the hand of `player`,
    /// transforms it by `action` and places it at `loc`; then every token
    /// travels, the players whose token has left the board give up their
    /// tiles, the game ends if it is finished, and the turn passes on. Or
    /// refuses, and leaves the state as it is.
    pub fn place_tile(
        &mut self,
        player: u32,
        kind: &G::Kind,
        index: u32,
        action: &G::GAct,
        loc: &G::TLoc,
    ) -> (r: Result<(), ErrorKind>)
        requires
            old(self).wf(),
        ensures
            final(self).wf(),
            match old(self).tile_refusal(player as nat, kind.key(), index as nat, *loc) {
                Some(e) => r == Err::<(), ErrorKind>(e) && *final(self) == *old(self),
                None => r.is_ok() && old(self).tile_placed(
                    final(self),
                    player as nat,
                    kind.key(),
                    index as nat,
                    action,
                    *loc,
                ),
            },
    {
        match self.check_turn(player) {
            Some(e) => {
                return Err(e);
            },
            None => {},
        }
        if self.does_someone_wait() {
            return Err(ErrorKind::TokenMissing);
        }
        if !self.board.contains_loc(loc) {
            return Err(ErrorKind::IllegalLocation);
        }
        match find_tile(&self.placed, loc) {
            Some(i) => {
                proof {
                    lemma_tile_on(self.placed(), i as int);
                }
                return Err(ErrorKind::Occupied);
            },
            None => {},
        }
        let who: usize = player as usize;
        if !self.hands[who].has_kind(kind) {
            return Err(ErrorKind::UnknownKind);
        }
        match self.hands[who].tile(kind, index) {
            None => {
                return Err(ErrorKind::IndexOutOfRange);
            },
            Some(held) => {
                if !held.visible() {
                    return Err(ErrorKind::HiddenTile);
                }
            },
        }
        let ghost before = *self;
        let ghost held = before.hands()[player as int]@[kind.key()][index as int];
        let taken = self.hands[who].remove_tile(kind, index);
        let tile: G::Tile = match taken {
            Ok(tile) => tile,
            Err(e) => {
                return Err(e);
            },
        };
        let turned = tile.apply_action(action);
        proof {
            G::Tile::lemma_act_fits(held.model(), *action);
        }
        self.placed.push((*loc, turned));
        let ghost hands_mid = self.hands();
        move_tokens(&self.board, &self.placed, &mut self.tokens);
        proof {
            assert forall|p: int| 0 <= p < self.tokens().len() implies (match #[trigger] self.tokens()[p] {
                Standing::Playing { port, facing } => self.board().index_spec(facing, port).is_some(),
                _ => true,
            }) by {
                match before.tokens()[p] {
                    Standing::Playing { port, facing } => {
                        lemma_travel_valid(
                            &self.board(),
                            self.placed(),
                            port,
                            facing,
                            fuel_for(&self.board(), self.placed()),
                        );
                    },
                    _ => {},
                }
            }
        }
        drain_out(&mut self.hands, &self.tokens);
        self.over = is_finished(&self.tokens, &self.hands);
        proof {
            let n = self.tokens().len();
            lemma_next_in_range(self.tokens(), self.turn(), n);
            if !self.is_over() {
                let q = lemma_count_in_witness(self.tokens());
                lemma_next_in_found(self.tokens(), self.turn(), n, q);
            }
        }
        self.turn = next_player(&self.tokens, self.turn);
        proof {
            let after = *self;
            let k = kind.key();
            assert(after.placed().drop_last() == before.placed());
            assert(forall|q: int|
            0 <= q < before.hands().len() ==> (#[trigger] after.hands()[q])@ == before.hand_after(
                q,
                player as nat,
                k,
                index as nat,
                after.tokens(),
            ));
        }
        Ok(())
    }

    /// The board that the game is played on.
    pub fn board_ref(&self) -> (r: &G::Board)
        ensures
            *r == self.board(),
    {
        &self.board
    }

    /// The ports at which a token may be placed.
    pub fn start_port_list(&self) -> (r: &Vec<G::Port>)
        ensures
            r@ == self.start_ports(),
    {
        &self.start_ports
    }

    /// The tiles on the board with their locations, in the order in which
    /// they were placed.
    pub fn placements(&self) -> (r: &Vec<(G::TLoc, G::Tile)>)
        ensures
            r@ == self.placed(),
    {
        &self.placed
    }

    /// The hands of the players.
    pub fn all_hands(&self) -> (r: &Vec<PlayerState<G::Tile>>)
        ensures
            r@ == self.hands(),
    {
        &self.hands
    }

    /// Where the tokens of the players stand.
    pub fn all_tokens(&self) -> (r: &Vec<Standing<G::Port, G::TLoc>>)
        ensures
            r@ == self.tokens(),
    {
        &self.tokens
    }

    /// Whether no location holds two tiles, the tiles lie on the board and
    /// show their connections.
    fn placed_fit(board: &G::Board, placed: &Vec<(G::TLoc, G::Tile)>) -> (ok: bool)
        ensures
            ok == (distinct_locs(placed@) && forall|i: int|
                0 <= i < placed.len() ==> {
                    &&& board.has_loc((#[trigger] placed[i]).0)
                    &&& G::Tile::fits(placed[i].1.model())
                    &&& placed[i].1.model().visible
                }),
    {
        let mut i: usize = 0;
        while i < placed.len()
            invariant
                i <= placed.len(),
                forall|a: int, b: int|
                    0 <= a < i && 0 <= b < placed.len() && a != b ==> (#[trigger] placed[a]).0 != (
                    #[trigger] placed[b]).0,
                forall|a: int|
                    0 <= a < i ==> {
                        &&& board.has_loc((#[trigger] placed[a]).0)
                        &&& G::Tile::fits(placed[a].1.model())
                        &&& placed[a].1.model().visible
                    },
            decreases placed.len() - i,
        {
            if !placed[i].1.visible() || !board.contains_loc(&placed[i].0) {
                return false;
            }
            let mut j: usize = i + 1;
            while j < placed.len()
                invariant
                    i < j <= placed.len(),
                    forall|b: int| i < b < j ==> (#[trigger] placed[b]).0 != placed[i as int].0,
                decreases placed.len() - j,
            {
                if placed[j].0.same(&placed[i].0) {
                    return false;
                }
                j += 1;
            }
            i += 1;
        }
        true
    }

    /// Whether every hand has the kinds of the board.
    fn hands_fit(board: &G::Board, hands: &Vec<PlayerState<G::Tile>>) -> (ok: bool)
        ensures
            ok == (forall|p: int|
                0 <= p < hands.len() ==> (#[trigger] hands[p]).kinds() == board.kinds_spec()),
    {
        let kinds = board.all_kinds();
        let mut p: usize = 0;
        while p < hands.len()
            invariant
                p <= hands.len(),
                kinds.len() == board.kinds_spec().len(),
                forall|i: int|
                    0 <= i < kinds.len() ==> (#[trigger] kinds[i]).key() == board.kinds_spec()[i],
                forall|q: int| 0 <= q < p ==> (#[trigger] hands[q]).kinds() == board.kinds_spec(),
            decreases hands.len() - p,
        {
            let keys = hands[p].kind_keys();
            if keys.len() != kinds.len() {
                return false;
            }
            let mut i: usize = 0;
            while i < keys.len()
                invariant
                    p < hands.len(),
                    i <= keys.len(),
                    keys.len() == kinds.len(),
                    kinds.len() == board.kinds_spec().len(),
                    forall|i: int|
                        0 <= i < kinds.len() ==> (#[trigger] kinds[i]).key() == board.kinds_spec()[i],
                    forall|a: int| 0 <= a < i ==> keys[a] == board.kinds_spec()[a],
                    keys@ == hands[p as int].kinds(),
                decreases keys.len() - i,
            {
                if keys[i] != kinds[i].kind_key() {
                    assert(hands[p as int].kinds()[i as int] != board.kinds_spec()[i as int]);
                    return false;
                }
                i += 1;
            }
            assert(hands[p as int].kinds() =~= board.kinds_spec());
            p += 1;
        }
        true
    }

    /// Whether every token on the board stands on a port of the location
    /// that it faces.
    fn tokens_fit(board: &G::Board, tokens: &Vec<Standing<G::Port, G::TLoc>>) -> (ok: bool)
        ensures
            ok == (forall|p: int|
                0 <= p < tokens.len() ==> (match #[trigger] tokens[p] {
                    Standing::Playing { port, facing } => board.index_spec(facing, port).is_some(),
                    _ => true,
                })),
    {
        let mut p: usize = 0;
        while p < tokens.len()
            invariant
                p <= tokens.len(),
                forall|q: int|
                    0 <= q < p ==> (match #[trigger] tokens[q] {
                        Standing::Playing { port, facing } => board.index_spec(facing, port).is_some(),
                        _ => true,
                    }),
            decreases tokens.len() - p,
        {
            match tokens[p] {
                Standing::Playing { port, facing } => {
                    if board.port_index(&facing, &port).is_none() {
                        return false;
                    }
                },
                _ => {},
            }
            p += 1;
        }
        true
    }

    /// The state made of the given parts, if they fit together.
    pub fn restore(
        board: G::Board,
        start_ports: Vec<G::Port>,
        placed: Vec<(G::TLoc, G::Tile)>,
        hands: Vec<PlayerState<G::Tile>>,
        tokens: Vec<Standing<G::Port, G::TLoc>>,
        turn: u32,
        over: bool,
    ) -> (r: Option<Self>)
        requires
            forall|p: int| 0 <= p < hands.len() ==> (#[trigger] hands[p]).wf(),
        ensures
            r.is_some() <==> Self::parts_fit(&board, placed@, hands@, tokens@, turn as nat, over),
            r.is_some() ==> {
                &&& r.unwrap().wf()
                &&& r.unwrap().board() == board
                &&& r.unwrap().start_ports() == start_ports@
                &&& r.unwrap().placed() == placed@
                &&& r.unwrap().hands() == hands@
                &&& r.unwrap().tokens() == tokens@
                &&& r.unwrap().turn() == turn
                &&& r.unwrap().is_over() == over
            },
    {
        let players: usize = tokens.len();
        if hands.len() != players || players > u32::MAX as usize {
            return None;
        }
        if players == 0 {
            if turn != 0 || !over {
                return None;
            }
        } else {
            if turn as usize >= players {
                return None;
            }
            if !over {
                match tokens[turn as usize] {
                    Standing::Out => {
                        return None;
                    },
                    _ => {},
                }
            }
        }
        if !Self::hands_fit(&board, &hands) || !Self::placed_fit(&board, &placed) || !Self::tokens_fit(
            &board,
            &tokens,
        ) {
            return None;
        }
        Some(GameState { board, start_ports, placed, hands, tokens, turn, over })
    }

    /// Whether `copy` shows this state: all of it if `looker` is none, else
    /// as the player `looker` sees it, with the tiles of the other players
    /// face down.
    pub open spec fn shown_as(&self, copy: &Self, looker: Option<nat>) -> bool {
        &&& copy.board() == self.board()
        &&& copy.start_ports() == self.start_ports()
        &&& copy.tokens() == self.tokens()
        &&& copy.turn() == self.turn()
        &&& copy.is_over() == self.is_over()
        &&& copy.placed().len() == self.placed().len()
        &&& forall|i: int|
            0 <= i < self.placed().len() ==> (#[trigger] copy.placed()[i]).0 == self.placed()[i].0
                && copy.placed()[i].1.model() == self.placed()[i].1.model()
        &&& copy.hands().len() == self.hands().len()
        &&& forall|q: int|
            0 <= q < self.hands().len() ==> self.hands()[q].copied_as(
                &#[trigger] copy.hands()[q],
                looker.is_some() && looker.unwrap() != q,
            )
    }

    /// A second state that shows this one to `looker`.
    fn copy_for(&self, looker: Option<u32>) -> (r: Self)
        requires
            self.wf(),
        ensures
            r.wf(),
            self.shown_as(
                &r,
                match looker {
                    Some(p) => Some(p as nat),
                    None => None,
                },
            ),
    {
        let mut placed: Vec<(G::TLoc, G::Tile)> = Vec::new();
        let mut i: usize = 0;
        while i < self.placed.len()
            invariant
                i <= self.placed.len(),
                placed.len() == i,
                forall|j: int|
                    0 <= j < i ==> (#[trigger] placed[j]).0 == self.placed()[j].0 && placed[j].1.model()
                        == self.placed()[j].1.model(),
            decreases self.placed.len() - i,
        {
            placed.push((self.placed[i].0, self.placed[i].1.duplicate()));
            i += 1;
        }
        let mut hands: Vec<PlayerState<G::Tile>> = Vec::new();
        let mut tokens: Vec<Standing<G::Port, G::TLoc>> = Vec::new();
        let mut q: usize = 0;
        while q < self.hands.len()
            invariant
                self.wf(),
                q <= self.hands.len(),
                hands.len() == q,
                tokens.len() == q,
                forall|p: int| 0 <= p < q ==> (#[trigger] tokens[p]) == self.tokens()[p],
                forall|p: int|
                    0 <= p < q ==> (#[trigger] hands[p]).wf() && self.hands()[p].copied_as(
                        &hands[p],
                        looker.is_some() && looker.unwrap() != p,
                    ),
            decreases self.hands.len() - q,
        {
            let hidden: bool = match looker {
                Some(p) => p as usize != q,
                None => false,
            };
            let hand = if hidden {
                self.hands[q].concealed()
            } else {
                self.hands[q].duplicate()
            };
            hands.push(hand);
            tokens.push(self.tokens[q]);
            q += 1;
        }
        let mut start_ports: Vec<G::Port> = Vec::new();
        let mut s: usize = 0;
        while s < self.start_ports.len()
            invariant
                s <= self.start_ports.len(),
                start_ports@ == self.start_ports().subrange(0, s as int),
            decreases self.start_ports.len() - s,
        {
            start_ports.push(self.start_ports[s]);
            assert(self.start_ports().subrange(0, s + 1) =~= self.start_ports().subrange(
                0,
                s as int,
            ).push(self.start_ports()[s as int]));
            s += 1;
        }
        assert(self.start_ports().subrange(0, s as int) =~= self.start_ports());
        assert(tokens@ =~= self.tokens());
        let r: GameState<G> = GameState {
            board: self.board.duplicate(),
            start_ports,
            placed,
            hands,
            tokens,
            turn: self.turn,
            over: self.over,
        };
        proof {
            assert forall|a: int, b: int|
                0 <= a < r.placed().len() && 0 <= b < r.placed().len() && a != b implies (
            #[trigger] r.placed()[a]).0 != (#[trigger] r.placed()[b]).0 by {
                assert(self.placed()[a].0 != self.placed()[b].0);
            }
            assert forall|a: int| 0 <= a < r.placed().len() implies {
                &&& r.board().has_loc((#[trigger] r.placed()[a]).0)
                &&& G::Tile::fits(r.placed()[a].1.model())
                &&& r.placed()[a].1.model().visible
            } by {
                assert(self.board().has_loc(self.placed()[a].0));
            }
            assert forall|p: int| 0 <= p < r.hands().len() implies (#[trigger] r.hands()[p]).kinds()
                == r.board().kinds_spec() by {
                assert(self.hands()[p].kinds() == self.board().kinds_spec());
            }
        }
        r
    }

    /// A second state like this one.
    pub fn duplicate(&self) -> (r: Self)
        requires
            self.wf(),
        ensures
            r.wf(),
            self.shown_as(&r, None),
    {
        self.copy_for(None)
    }

    /// This state as `player` sees it: the tiles that the other players
    /// hold lie face down.
    pub fn seen_by(&self, player: u32) -> (r: Self)
        requires
            self.wf(),
        ensures
            r.wf(),
            self.shown_as(&r, Some(player as nat)),
    {
        self.copy_for(Some(player))
    }
}

} // verus!
