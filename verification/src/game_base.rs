//! The closed carriers of games and of their states.
use crate::board::{Board, GridPort};
use crate::board_base::{wrap_all_ports, wrap_ports, BaseBoard, BasePort, BaseTLoc};
use crate::deal::{deck_of, is_playable, playable};
use crate::error::ErrorKind;
use crate::game::{Game, GameExt, GenericGame, PathGame};
use crate::game_state::GameState;
use crate::geometry::ScaledPoint;
use crate::rectangle::RectangleBoard;
use crate::tile::{Kind, RegularTile, Tile, TileModel};
use crate::tile_base::{BaseGAct, BaseKind, BaseTile, TileTag};
use crate::travel::Standing;
use crate::wrap::{Erased, WrapBase};
use vstd::prelude::*;

verus! {

/// The game of square tiles on a rectangular board.
pub type NormalGame = PathGame<RectangleBoard, RegularTile<4>>;

/// The variants of the game and state families.
#[derive(Clone, Copy, Debug, PartialEq, Eq, Structural, Hash)]
pub enum GameTag {
    Normal,
}

/// A game of any registered variant.
#[derive(Clone, Debug)]
pub enum BaseGame {
    Normal(NormalGame),
}

/// A state of a game of any registered variant.
#[derive(Debug)]
pub enum BaseGameState {
    Normal(GameState<NormalGame>),
}

impl Erased for BaseGame {
    type Tag = GameTag;

    open spec fn tag_spec(&self) -> GameTag {
        match self {
            BaseGame::Normal(_) => GameTag::Normal,
        }
    }

    fn tag(&self) -> (t: GameTag) {
        match self {
            BaseGame::Normal(_) => GameTag::Normal,
        }
    }
}

impl Erased for BaseGameState {
    type Tag = GameTag;

    open spec fn tag_spec(&self) -> GameTag {
        match self {
            BaseGameState::Normal(_) => GameTag::Normal,
        }
    }

    fn tag(&self) -> (t: GameTag) {
        match self {
            BaseGameState::Normal(_) => GameTag::Normal,
        }
    }
}

impl WrapBase for NormalGame {
    type Base = BaseGame;

    open spec fn variant() -> GameTag {
        GameTag::Normal
    }

    open spec fn wrap_spec(self) -> BaseGame {
        BaseGame::Normal(self)
    }

    open spec fn unwrap_spec(base: &BaseGame) -> Option<Self> {
        match base {
            BaseGame::Normal(g) => Some(*g),
        }
    }

    fn wrap_base(self) -> (b: BaseGame) {
        BaseGame::Normal(self)
    }

    fn unwrap_base(base: BaseGame) -> (r: Option<Self>) {
        match base {
            BaseGame::Normal(g) => Some(g),
        }
    }

    fn unwrap_base_ref(base: &BaseGame) -> (r: Option<&Self>) {
        match base {
            BaseGame::Normal(g) => Some(g),
        }
    }

    proof fn lemma_round_trip(v: Self) {
    }

    proof fn lemma_unwrap(base: BaseGame) {
    }
}

impl WrapBase for GameState<NormalGame> {
    type Base = BaseGameState;

    open spec fn variant() -> GameTag {
        GameTag::Normal
    }

    open spec fn wrap_spec(self) -> BaseGameState {
        BaseGameState::Normal(self)
    }

    open spec fn unwrap_spec(base: &BaseGameState) -> Option<Self> {
        match base {
            BaseGameState::Normal(s) => Some(*s),
        }
    }

    fn wrap_base(self) -> (b: BaseGameState) {
        BaseGameState::Normal(self)
    }

    fn unwrap_base(base: BaseGameState) -> (r: Option<Self>) {
        match base {
            BaseGameState::Normal(s) => Some(s),
        }
    }

    fn unwrap_base_ref(base: &BaseGameState) -> (r: Option<&Self>) {
        match base {
            BaseGameState::Normal(s) => Some(s),
        }
    }

    proof fn lemma_round_trip(v: Self) {
    }

    proof fn lemma_unwrap(base: BaseGameState) {
    }
}

impl GenericGame for NormalGame {
    open spec fn can_start(&self) -> bool {
        playable(self)
    }

    open spec fn starts(&self, num_players: nat, state: &BaseGameState) -> bool {
        match state {
            BaseGameState::Normal(s) => s.begins(self, num_players),
        }
    }

    open spec fn board_base(&self) -> BaseBoard {
        BaseBoard::Rectangle(self.board_spec())
    }

    fn new_state(&self, num_players: u32) -> (state: BaseGameState) {
        GameState::new(self, num_players).wrap_base()
    }

    fn board(&self) -> (b: BaseBoard) {
        let board: &RectangleBoard = Game::board(self);
        board.duplicate().wrap_base()
    }
}

impl GenericGame for BaseGame {
    open spec fn can_start(&self) -> bool {
        match self {
            BaseGame::Normal(g) => g.can_start(),
        }
    }

    open spec fn starts(&self, num_players: nat, state: &BaseGameState) -> bool {
        match self {
            BaseGame::Normal(g) => g.starts(num_players, state),
        }
    }

    open spec fn board_base(&self) -> BaseBoard {
        match self {
            BaseGame::Normal(g) => g.board_base(),
        }
    }

    fn new_state(&self, num_players: u32) -> (state: BaseGameState) {
        match self {
            BaseGame::Normal(g) => g.new_state(num_players),
        }
    }

    fn board(&self) -> (b: BaseBoard) {
        match self {
            BaseGame::Normal(g) => GenericGame::board(g),
        }
    }
}

impl BaseGame {
    /// The ports at which players may start, each in its carrier.
    pub open spec fn start_ports_spec(&self) -> Seq<BasePort> {
        match self {
            BaseGame::Normal(g) => wrap_ports(g.start_ports_spec()),
        }
    }

    /// How many tiles of each kind, by the kind's key, a player starts
    /// with.
    pub open spec fn allotment(&self) -> Map<u32, u32> {
        match self {
            BaseGame::Normal(g) => g.allotment(),
        }
    }

    /// Whether the tiles of the game can be listed.
    pub open spec fn can_list(&self) -> bool {
        match self {
            BaseGame::Normal(g) => RegularTile::<4>::config_ok(&g.board_spec().config_spec()),
        }
    }

    /// The tiles of the game, in the order in which `all_tiles` lists them.
    pub open spec fn deck(&self) -> Seq<TileModel> {
        match self {
            BaseGame::Normal(g) => deck_of(g),
        }
    }

    /// All the ports that players can start at.
    pub fn start_ports(&self) -> (r: Vec<BasePort>)
        ensures
            r@ == self.start_ports_spec(),
    {
        match self {
            BaseGame::Normal(g) => wrap_all_ports(g.start_ports()),
        }
    }

    /// Whether the tiles of the game can be listed.
    pub fn lists_tiles(&self) -> (r: bool)
        ensures
            r == self.can_list(),
    {
        match self {
            BaseGame::Normal(g) => {
                let board: &RectangleBoard = Game::board(g);
                RegularTile::<4>::supports(&board.tile_config())
            },
        }
    }

    /// The set of tiles the game uses.
    pub fn all_tiles(&self) -> (r: Vec<BaseTile>)
        requires
            self.can_list(),
        ensures
            r.len() == self.deck().len(),
            forall|i: int|
                0 <= i < r.len() ==> (#[trigger] r[i]).model() == self.deck()[i] && r[i].tag_spec()
                    == (match self {
                    BaseGame::Normal(_) => TileTag::Square,
                }),
    {
        match self {
            BaseGame::Normal(g) => {
                let tiles = g.all_tiles();
                let ghost models = deck_of(g);
                let mut wrapped: Vec<BaseTile> = Vec::new();
                let mut i: usize = 0;
                while i < tiles.len()
                    invariant
                        i <= tiles.len(),
                        tiles.len() == models.len(),
                        wrapped.len() == i,
                        forall|j: int| 0 <= j < tiles.len() ==> (#[trigger] tiles[j]).model() == models[j],
                        forall|j: int|
                            0 <= j < i ==> (#[trigger] wrapped[j]).model() == models[j] && wrapped[j]
                                matches BaseTile::Square(_),
                    decreases tiles.len() - i,
                {
                    wrapped.push(BaseTile::Square(tiles[i].duplicate()));
                    i += 1;
                }
                wrapped
            },
        }
    }

    /// Whether the game says how many tiles of `kind` a player starts with.
    pub fn allots(&self, kind: &BaseKind) -> (r: bool)
        ensures
            r == self.allotment().contains_key(kind.key()),
    {
        match (self, kind) {
            (BaseGame::Normal(g), BaseKind::Regular(k)) => g.allots(k),
        }
    }

    /// Tiles of some kind that a player starts with.
    pub fn num_tiles_per_player(&self, kind: &BaseKind) -> (n: u32)
        requires
            self.allotment().contains_key(kind.key()),
        ensures
            n == self.allotment()[kind.key()],
    {
        match (self, kind) {
            (BaseGame::Normal(g), BaseKind::Regular(k)) => g.num_tiles_per_player(k),
        }
    }

    /// Whether a session of the game can begin.
    pub fn is_playable(&self) -> (ok: bool)
        ensures
            ok == self.can_start(),
    {
        match self {
            BaseGame::Normal(g) => is_playable(g),
        }
    }

    /// The state in which the game begins with `num_players` players, if a
    /// session of the game can begin.
    pub fn try_new_state(&self, num_players: u32) -> (r: Option<BaseGameState>)
        ensures
            r.is_some() <==> self.can_start(),
            r.is_some() ==> r.unwrap().wf() && self.starts(num_players as nat, &r.unwrap()),
    {
        if self.is_playable() {
            Some(self.new_state(num_players))
        } else {
            None
        }
    }
}

impl BaseGameState {
    /// Validity: the state inside is valid.
    pub open spec fn wf(&self) -> bool {
        match self {
            BaseGameState::Normal(s) => s.wf(),
        }
    }

    /// Whether the game has ended.
    pub open spec fn is_over(&self) -> bool {
        match self {
            BaseGameState::Normal(s) => s.is_over(),
        }
    }

    /// Number of players.
    pub open spec fn num_players(&self) -> nat {
        match self {
            BaseGameState::Normal(s) => s.num_players(),
        }
    }

    /// The player whose turn it is.
    pub open spec fn turn(&self) -> nat {
        match self {
            BaseGameState::Normal(s) => s.turn(),
        }
    }

    /// Whether the game has ended.
    pub fn game_over(&self) -> (r: bool)
        ensures
            r == self.is_over(),
    {
        match self {
            BaseGameState::Normal(s) => s.game_over(),
        }
    }

    /// Number of players.
    pub fn player_count(&self) -> (n: u32)
        requires
            self.wf(),
        ensures
            n == self.num_players(),
    {
        match self {
            BaseGameState::Normal(s) => s.player_count(),
        }
    }

    /// The player whose turn it is.
    pub fn current_player(&self) -> (p: u32)
        ensures
            p == self.turn(),
    {
        match self {
            BaseGameState::Normal(s) => s.current_player(),
        }
    }

    /// Where the token of `player` stands, if there is such a player.
    pub fn standing(&self, player: u32) -> (r: Option<Standing<BasePort, BaseTLoc>>)
        ensures
            match self {
                BaseGameState::Normal(s) => r == (if player < s.num_players() {
                    Some(
                        match s.tokens()[player as int] {
                            Standing::Waiting => Standing::Waiting,
                            Standing::Out => Standing::Out,
                            Standing::Playing { port, facing } => Standing::Playing {
                                port: BasePort::Grid(port),
                                facing: BaseTLoc::Grid(facing),
                            },
                        },
                    )
                } else {
                    None
                }),
            },
    {
        match self {
            BaseGameState::Normal(s) => {
                if player as usize >= s.token_count() {
                    None
                } else {
                    Some(
                        match s.standing(player) {
                            Standing::Waiting => Standing::Waiting,
                            Standing::Out => Standing::Out,
                            Standing::Playing { port, facing } => Standing::Playing {
                                port: BasePort::Grid(port),
                                facing: BaseTLoc::Grid(facing),
                            },
                        },
                    )
                }
            },
        }
    }

    /// Number of tiles of `kind` that `player` holds, if there is such a
    /// player and the game has that kind.
    pub fn num_tiles_by_kind(&self, player: u32, kind: &BaseKind) -> (r: Option<u32>)
        requires
            self.wf(),
        ensures
            match self {
                BaseGameState::Normal(s) => r == (if player < s.num_players()
                    && s.hands()[player as int]@.contains_key(kind.key()) {
                    Some(s.hands()[player as int]@[kind.key()].len() as u32)
                } else {
                    None
                }),
            },
    {
        match (self, kind) {
            (BaseGameState::Normal(s), BaseKind::Regular(k)) => {
                if player >= s.player_count() {
                    None
                } else {
                    let hand = s.hand(player);
                    if hand.has_kind(k) {
                        Some(hand.num_tiles_by_kind(k))
                    } else {
                        None
                    }
                }
            },
        }
    }

    /// The tile lying at `loc`, if there is one.
    pub fn tile(&self, loc: &BaseTLoc) -> (r: Option<BaseTile>)
        requires
            self.wf(),
        ensures
            match (self, loc) {
                (BaseGameState::Normal(s), BaseTLoc::Grid(l)) => match r {
                    Some(t) => t matches BaseTile::Square(_) && s.tile_at(*l) == Some(t.model()),
                    None => s.tile_at(*l).is_none(),
                },
            },
    {
        match (self, loc) {
            (BaseGameState::Normal(s), BaseTLoc::Grid(l)) => match s.tile(l) {
                Some(t) => Some(BaseTile::Square(t.duplicate())),
                None => None,
            },
        }
    }

    /// A second state like this one.
    pub fn duplicate(&self) -> (r: BaseGameState)
        requires
            self.wf(),
        ensures
            r.wf(),
            match (self, r) {
                (BaseGameState::Normal(s), BaseGameState::Normal(t)) => s.shown_as(&t, None),
            },
    {
        match self {
            BaseGameState::Normal(s) => BaseGameState::Normal(s.duplicate()),
        }
    }

    /// This state as `player` sees it: the tiles that the other players
    /// hold lie face down.
    pub fn seen_by(&self, player: u32) -> (r: BaseGameState)
        requires
            self.wf(),
        ensures
            r.wf(),
            match (self, r) {
                (BaseGameState::Normal(s), BaseGameState::Normal(t)) => s.shown_as(
                    &t,
                    Some(player as nat),
                ),
            },
    {
        match self {
            BaseGameState::Normal(s) => BaseGameState::Normal(s.seen_by(player)),
        }
    }

    /// Why the request is turned down, if it is.
    pub open spec fn refusal_of(&self, request: &Request) -> Option<ErrorKind> {
        match (self, request) {
            (
                BaseGameState::Normal(s),
                Request::PlaceToken { player, port: BasePort::Grid(p) },
            ) => s.token_refusal(*player as nat, *p),
            (
                BaseGameState::Normal(s),
                Request::PlaceTile {
                    player,
                    kind: BaseKind::Regular(k),
                    index,
                    action: BaseGAct::Square(_),
                    loc: BaseTLoc::Grid(l),
                },
            ) => s.tile_refusal(*player as nat, k.key(), *index as nat, *l),
            (BaseGameState::Normal(_), Request::PlaceTile { .. }) => Some(
                ErrorKind::VariantMismatch,
            ),
            (BaseGameState::Normal(s), Request::PassTurn { player }) => s.pass_refusal(
                *player as nat,
            ),
        }
    }

    /// Whether `after` is this state after the request has been carried out.
    pub open spec fn follows(&self, after: &BaseGameState, request: &Request) -> bool {
        match (self, after, request) {
            (
                BaseGameState::Normal(s),
                BaseGameState::Normal(t),
                Request::PlaceToken { player, port: BasePort::Grid(p) },
            ) => s.token_placed(t, *player as nat, *p),
            (
                BaseGameState::Normal(s),
                BaseGameState::Normal(t),
                Request::PlaceTile {
                    player,
                    kind: BaseKind::Regular(k),
                    index,
                    action: BaseGAct::Square(a),
                    loc: BaseTLoc::Grid(l),
                },
            ) => s.tile_placed(t, *player as nat, k.key(), *index as nat, a, *l),
            (BaseGameState::Normal(_), BaseGameState::Normal(_), Request::PlaceTile { .. }) => false,
            (
                BaseGameState::Normal(s),
                BaseGameState::Normal(t),
                Request::PassTurn { player },
            ) => s.turn_passed(t),
        }
    }

    /// Carries out the request, or refuses and leaves the state as it is.
    pub fn apply(&mut self, request: &Request) -> (r: Result<(), ErrorKind>)
        requires
            old(self).wf(),
        ensures
            final(self).wf(),
            match old(self).refusal_of(request) {
                Some(e) => r == Err::<(), ErrorKind>(e) && *final(self) == *old(self),
                None => r.is_ok() && old(self).follows(final(self), request),
            },
    {
        match request {
            Request::PlaceToken { player, port } => self.place_token(*player, port),
            Request::PlaceTile { player, kind, index, action, loc } => self.place_tile(
                *player,
                kind,
                *index,
                action,
                loc,
            ),
            Request::PassTurn { player } => self.pass_turn(*player),
        }
    }

    /// Once a game has ended, every request is turned down, so the state
    /// stays as it is and the game stays ended.
    pub proof fn lemma_over_stays(&self, request: &Request)
        requires
            self.is_over(),
        ensures
            self.refusal_of(request).is_some(),
    {
    }

    /// Places the token of `player` on the start port `port`, or refuses
    /// and leaves the state as it is.
    pub fn place_token(&mut self, player: u32, port: &BasePort) -> (r: Result<(), ErrorKind>)
        requires
            old(self).wf(),
        ensures
            final(self).wf(),
            match (*old(self), *final(self), port) {
                (BaseGameState::Normal(before), BaseGameState::Normal(after), BasePort::Grid(p)) => {
                    match before.token_refusal(player as nat, *p) {
                        Some(e) => r == Err::<(), ErrorKind>(e) && after == before,
                        None => r.is_ok() && before.token_placed(&after, player as nat, *p),
                    }
                },
            },
    {
        match (self, port) {
            (BaseGameState::Normal(s), BasePort::Grid(p)) => s.place_token(player, p),
        }
    }

    /// Lets `player` pass, or refuses and leaves the state as it is.
    pub fn pass_turn(&mut self, player: u32) -> (r: Result<(), ErrorKind>)
        requires
            old(self).wf(),
        ensures
            final(self).wf(),
            match (*old(self), *final(self)) {
                (BaseGameState::Normal(before), BaseGameState::Normal(after)) => {
                    match before.pass_refusal(player as nat) {
                        Some(e) => r == Err::<(), ErrorKind>(e) && after == before,
                        None => r.is_ok() && before.turn_passed(&after),
                    }
                },
            },
    {
        match self {
            BaseGameState::Normal(s) => s.pass_turn(player),
        }
    }

    /// Places a tile from the hand of `player`, or refuses and leaves the
    /// state as it is. An action of another variant than the state is
    /// refused as a mismatch.
    pub fn place_tile(
        &mut self,
        player: u32,
        kind: &BaseKind,
        index: u32,
        action: &BaseGAct,
        loc: &BaseTLoc,
    ) -> (r: Result<(), ErrorKind>)
        requires
            old(self).wf(),
        ensures
            final(self).wf(),
            match (*old(self), *final(self), kind, action, loc) {
                (
                    BaseGameState::Normal(before),
                    BaseGameState::Normal(after),
                    BaseKind::Regular(k),
                    BaseGAct::Square(a),
                    BaseTLoc::Grid(l),
                ) => {
                    match before.tile_refusal(player as nat, k.key(), index as nat, *l) {
                        Some(e) => r == Err::<(), ErrorKind>(e) && after == before,
                        None => r.is_ok() && before.tile_placed(
                            &after,
                            player as nat,
                            k.key(),
                            index as nat,
                            a,
                            *l,
                        ),
                    }
                },
                (BaseGameState::Normal(before), BaseGameState::Normal(after), _, _, _) => {
                    r == Err::<(), ErrorKind>(ErrorKind::VariantMismatch) && after == before
                },
            },
    {
        match (self, kind, action, loc) {
            (
                BaseGameState::Normal(s),
                BaseKind::Regular(k),
                BaseGAct::Square(a),
                BaseTLoc::Grid(l),
            ) => s.place_tile(player, k, index, a, l),
            _ => Err(ErrorKind::VariantMismatch),
        }
    }
}

/// What a player asks of the host.
#[derive(Clone, Copy, Debug, PartialEq, Eq, Hash)]
pub enum Request {
    /// Place the player's token on a start port.
    PlaceToken { player: u32, port: BasePort },
    /// Place the selected tile of the hand, transformed by the action, at a
    /// location.
    PlaceTile { player: u32, kind: BaseKind, index: u32, action: BaseGAct, loc: BaseTLoc },
    /// Pass, holding no tile.
    PassTurn { player: u32 },
}

/// What the host answers.
#[derive(Clone, Copy, Debug, PartialEq, Eq, Structural, Hash)]
pub enum Response {
    /// The request was carried out.
    Accepted,
    /// The request was turned down, and nothing has changed.
    Rejected(ErrorKind),
}

/// The ports of a list with their points, each port in its carrier.
pub open spec fn wrap_ports_with_points(ports: Seq<(GridPort, ScaledPoint)>) -> Seq<
    (BasePort, ScaledPoint),
> {
    Seq::new(ports.len(), |i: int| (BasePort::Grid(ports[i].0), ports[i].1))
}

/// What the carrier of a game tells of the layout of the game inside.
pub trait BaseGameExt {
    /// The start ports with the point at which each lies.
    spec fn starts_with_points(&self) -> Seq<(BasePort, ScaledPoint)>;

    /// Starting ports and their positions.
    fn start_ports_and_positions(&self) -> (r: Vec<(BasePort, ScaledPoint)>)
        ensures
            r@ == self.starts_with_points(),
    ;
}

impl BaseGameExt for BaseGame {
    open spec fn starts_with_points(&self) -> Seq<(BasePort, ScaledPoint)> {
        match self {
            BaseGame::Normal(g) => wrap_ports_with_points(
                crate::game::ports_with_points(&g.board_spec(), g.start_ports_spec()),
            ),
        }
    }

    fn start_ports_and_positions(&self) -> (r: Vec<(BasePort, ScaledPoint)>) {
        match self {
            BaseGame::Normal(g) => {
                let found = GameExt::start_ports_and_positions(g);
                let mut wrapped: Vec<(BasePort, ScaledPoint)> = Vec::new();
                let mut i: usize = 0;
                while i < found.len()
                    invariant
                        i <= found.len(),
                        wrapped.len() == i,
                        forall|j: int|
                            0 <= j < i ==> wrapped[j] == (BasePort::Grid(found[j].0), found[j].1),
                    decreases found.len() - i,
                {
                    wrapped.push((BasePort::Grid(found[i].0), found[i].1));
                    i += 1;
                }
                assert(wrapped@ =~= wrap_ports_with_points(found@));
                wrapped
            },
        }
    }
}

} // verus!
