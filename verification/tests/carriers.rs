use pathgame::board::{Board, GridLoc, GridPort, Port, TLoc};
use pathgame::board_base::{BaseBoard, BaseBoardExt, BasePort, BaseTLoc, BoardTag, GridTag};
use pathgame::error::ErrorKind;
use pathgame::game::{Game, GameId, GenericGame, PathGame};
use pathgame::game_base::{
    BaseGame, BaseGameExt, BaseGameState, GameTag, NormalGame, Request, Response,
};
use pathgame::game_state::GameState;
use pathgame::geometry::{ScaledBox, ScaledPoint};
use pathgame::instance::GameInstance;
use pathgame::rectangle::RectangleBoard;
use pathgame::tile::{GAct, Kind, RegularKind, RegularTile, Rotation, Tile};
use pathgame::tile_base::{BaseGAct, BaseKind, BaseTile, ButtonAction, KindTag, TileTag};
use pathgame::travel::Standing;
use pathgame::wrap::{Erased, WrapBase};

fn start() -> GridPort {
    GridPort { x: 0, y: 0, dx: 1, dy: 0 }
}

fn game() -> NormalGame {
    let board = RectangleBoard::new(3, 2, 1, 1).unwrap();
    PathGame::new(board, vec![start()], vec![(RegularKind(0), 5)])
}

fn square() -> RegularTile<4> {
    RegularTile::<4>::new(RegularKind(1), 1, vec![1, 0, 3, 2]).unwrap()
}

fn hexagon() -> RegularTile<6> {
    RegularTile::<6>::new(RegularKind(2), 1, vec![1, 0, 3, 2, 5, 4]).unwrap()
}

fn place(player: u32, index: u32, x: u32, y: u32) -> Request {
    Request::PlaceTile {
        player,
        kind: BaseKind::Regular(RegularKind(0)),
        index,
        action: BaseGAct::Square(Rotation::<4>::identity()),
        loc: BaseTLoc::Grid(GridLoc { x, y }),
    }
}

#[test]
fn unwrap_gives_back_what_was_wrapped() {
    let tile = square();
    let base = tile.duplicate().wrap_base();
    assert_eq!(base.tag(), TileTag::Square);
    assert_eq!(RegularTile::<4>::unwrap_base_ref(&base), Some(&tile));
    assert_eq!(RegularTile::<4>::unwrap_base(base), Some(tile));
    let hex = hexagon();
    let base = hex.duplicate().wrap_base();
    assert_eq!(base.tag(), TileTag::Hexagon);
    assert_eq!(RegularTile::<6>::unwrap_base_ref(&base), Some(&hex));
    assert_eq!(RegularTile::<6>::unwrap_base(base), Some(hex));
}

#[test]
fn unwrap_as_another_variant_fails() {
    let base = square().wrap_base();
    assert_eq!(RegularTile::<6>::unwrap_base_ref(&base), None);
    assert_eq!(RegularTile::<6>::unwrap_base(base), None);
    let base = hexagon().wrap_base();
    assert_eq!(RegularTile::<4>::unwrap_base_ref(&base), None);
    assert_eq!(RegularTile::<4>::unwrap_base(base), None);
    let turn = Rotation::<4>::new(1).wrap_base();
    assert_eq!(Rotation::<6>::unwrap_base_ref(&turn), None);
    assert_eq!(Rotation::<6>::unwrap_base(turn), None);
    let turn = Rotation::<6>::new(1).wrap_base();
    assert_eq!(Rotation::<4>::unwrap_base(turn), None);
}

#[test]
fn small_values_round_trip() {
    let kind = RegularKind(4);
    assert_eq!(kind.wrap_base(), BaseKind::Regular(kind));
    assert_eq!(kind.wrap_base().tag(), KindTag::Regular);
    assert_eq!(RegularKind::unwrap_base(kind.wrap_base()), Some(kind));
    assert_eq!(RegularKind::unwrap_base_ref(&kind.wrap_base()), Some(&kind));
    assert_eq!(kind.wrap_base().kind_key(), 4);
    let loc = GridLoc { x: 1, y: 2 };
    assert_eq!(loc.wrap_base().tag(), GridTag::Grid);
    assert_eq!(GridLoc::unwrap_base(loc.wrap_base()), Some(loc));
    assert_eq!(GridLoc::unwrap_base_ref(&loc.wrap_base()), Some(&loc));
    assert!(loc.wrap_base().same(&BaseTLoc::Grid(loc)));
    assert!(!loc.wrap_base().same(&BaseTLoc::Grid(GridLoc { x: 2, y: 1 })));
    let port = start();
    assert_eq!(port.wrap_base().tag(), GridTag::Grid);
    assert_eq!(GridPort::unwrap_base(port.wrap_base()), Some(port));
    assert_eq!(GridPort::unwrap_base_ref(&port.wrap_base()), Some(&port));
    assert!(port.wrap_base().same(&BasePort::Grid(port)));
    let turn = Rotation::<4>::new(3);
    assert_eq!(turn.wrap_base().tag(), TileTag::Square);
    assert_eq!(Rotation::<4>::unwrap_base(turn.wrap_base()), Some(turn));
    assert_eq!(Rotation::<4>::unwrap_base_ref(&turn.wrap_base()), Some(&turn));
    let turn = Rotation::<6>::new(5);
    assert_eq!(turn.wrap_base().tag(), TileTag::Hexagon);
    assert_eq!(Rotation::<6>::unwrap_base_ref(&turn.wrap_base()), Some(&turn));
    let board = RectangleBoard::new(3, 2, 1, 1).unwrap();
    assert_eq!(board.wrap_base().tag(), BoardTag::Rectangle);
    assert_eq!(RectangleBoard::unwrap_base(board.wrap_base()), Some(board));
    assert_eq!(RectangleBoard::unwrap_base_ref(&board.wrap_base()), Some(&board));
}

#[test]
fn games_and_states_round_trip() {
    let base = game().wrap_base();
    assert_eq!(base.tag(), GameTag::Normal);
    let inner = NormalGame::unwrap_base_ref(&base).unwrap();
    assert_eq!(Game::num_tiles_per_player(inner, &RegularKind(0)), 5);
    let state = GameState::new(&game(), 2).wrap_base();
    assert_eq!(state.tag(), GameTag::Normal);
    let inner = GameState::<NormalGame>::unwrap_base_ref(&state).unwrap();
    assert_eq!(inner.player_count(), 2);
    assert!(GameState::<NormalGame>::unwrap_base(state).is_some());
    assert!(NormalGame::unwrap_base(base).is_some());
}

#[test]
fn base_tile_passes_through() {
    let base = BaseTile::Square(square());
    assert_eq!(base.kind(), BaseKind::Regular(RegularKind(1)));
    assert_eq!(base.num_ports(), 4);
    assert_eq!(base.ports_per_edge(), 1);
    assert!(base.visible());
    assert_eq!(base.output(0), 1);
    assert_eq!(base.output(3), 2);
    let hex = BaseTile::Hexagon(hexagon());
    assert_eq!(hex.num_ports(), 6);
    assert_eq!(hex.output(4), 5);
    assert!(!hex.conceal().visible());
    assert_eq!(hex.conceal().tag(), TileTag::Hexagon);
    assert_eq!(hex.conceal().kind(), BaseKind::Regular(RegularKind(2)));
}

#[test]
fn base_tile_acts_within_its_variant() {
    let base = BaseTile::Square(square());
    let quarter = base.rotation_action(1);
    assert_eq!(quarter, BaseGAct::Square(Rotation::<4>::new(1)));
    let turned = base.apply_action(&quarter).unwrap();
    assert_eq!(turned, BaseTile::Square(square().apply_action(&Rotation::<4>::new(1))));
    assert_eq!(turned.output(0), 3);
    let sixth = BaseGAct::Hexagon(Rotation::<6>::new(1));
    assert_eq!(base.apply_action(&sixth), Err(ErrorKind::VariantMismatch));
    let hex = BaseTile::Hexagon(hexagon());
    assert_eq!(hex.rotation_action(-1), BaseGAct::Hexagon(Rotation::<6>::new(5)));
    assert_eq!(hex.apply_action(&quarter), Err(ErrorKind::VariantMismatch));
    assert_eq!(hex.apply_action(&sixth).unwrap().output(0), 5);
}

#[test]
fn base_actions_compose_within_their_variant() {
    let a = BaseGAct::Square(Rotation::<4>::new(3));
    let b = BaseGAct::Square(Rotation::<4>::new(2));
    let h = BaseGAct::Hexagon(Rotation::<6>::new(2));
    assert_eq!(a.compose(&b), Ok(BaseGAct::Square(Rotation::<4>::new(1))));
    assert_eq!(a.compose(&h), Err(ErrorKind::VariantMismatch));
    assert_eq!(h.compose(&a), Err(ErrorKind::VariantMismatch));
    assert_eq!(h.compose(&h), Ok(BaseGAct::Hexagon(Rotation::<6>::new(4))));
    assert_eq!(a.identity_like(), BaseGAct::Square(Rotation::<4>::identity()));
    assert_eq!(h.identity_like(), BaseGAct::Hexagon(Rotation::<6>::identity()));
    assert_eq!(a.compose(&a.identity_like()), Ok(a));
    assert_eq!(a.inverse(), BaseGAct::Square(Rotation::<4>::new(1)));
    assert_eq!(a.compose(&a.inverse()), Ok(a.identity_like()));
    assert_eq!(h.inverse(), BaseGAct::Hexagon(Rotation::<6>::new(4)));
}

#[test]
fn button_turns_the_tile() {
    let tile = BaseTile::Square(square());
    let back = ButtonAction::Rotation { num_times: -1 };
    assert_eq!(back.group_action(&tile), BaseGAct::Square(Rotation::<4>::new(3)));
    let forth = ButtonAction::Rotation { num_times: 1 };
    assert_eq!(forth.group_action(&BaseTile::Hexagon(hexagon())), BaseGAct::Hexagon(Rotation::<6>::new(1)));
    let both = back.group_action(&tile).compose(&forth.group_action(&tile));
    assert_eq!(both, Ok(BaseGAct::Square(Rotation::<4>::identity())));
}

#[test]
fn base_board_passes_through() {
    let inner = RectangleBoard::new(3, 2, 1, 2).unwrap();
    let board = BaseBoard::Rectangle(inner);
    assert!(board.contains_loc(&BaseTLoc::Grid(GridLoc { x: 2, y: 1 })));
    assert!(!board.contains_loc(&BaseTLoc::Grid(GridLoc { x: 3, y: 1 })));
    assert!(board.contains_port(&BasePort::Grid(start())));
    assert!(!board.contains_port(&BasePort::Grid(GridPort { x: 0, y: 0, dx: 1, dy: 1 })));
    let ports = board.boundary_ports();
    assert_eq!(ports.len(), 10);
    assert_eq!(ports[0], BasePort::Grid(start()));
    let inner_ports: Vec<BasePort> = inner.boundary_ports().into_iter().map(BasePort::Grid).collect();
    assert_eq!(ports, inner_ports);
    assert_eq!(
        board.all_kinds(),
        vec![BaseKind::Regular(RegularKind(0)), BaseKind::Regular(RegularKind(1))]
    );
    assert_eq!(
        board.loc_position(&BaseTLoc::Grid(GridLoc { x: 1, y: 1 })),
        ScaledPoint { x: 3, y: 3, scale: 2 }
    );
    assert_eq!(board.port_position(&BasePort::Grid(start())), ScaledPoint { x: 1, y: 0, scale: 2 });
    assert_eq!(
        board.bounding_box(),
        ScaledBox { min_x: -1, min_y: -1, max_x: 31, max_y: 21, scale: 10 }
    );
}

#[test]
fn base_game_passes_through() {
    let base = BaseGame::Normal(game());
    assert_eq!(base.board(), BaseBoard::Rectangle(RectangleBoard::new(3, 2, 1, 1).unwrap()));
    assert_eq!(GenericGame::board(&game()), base.board());
    assert!(base.is_playable());
    assert_eq!(
        base.start_ports_and_positions(),
        vec![(BasePort::Grid(start()), ScaledPoint { x: 1, y: 0, scale: 2 })]
    );
    let state = base.new_state(2);
    assert_eq!(state.player_count(), 2);
    assert_eq!(state.current_player(), 0);
    assert!(!state.game_over());
    assert_eq!(state.num_tiles_by_kind(0, &BaseKind::Regular(RegularKind(0))), Some(5));
    assert_eq!(state.num_tiles_by_kind(1, &BaseKind::Regular(RegularKind(0))), Some(5));
    assert_eq!(state.num_tiles_by_kind(1, &BaseKind::Regular(RegularKind(1))), None);
    assert_eq!(state.num_tiles_by_kind(2, &BaseKind::Regular(RegularKind(0))), None);
    assert_eq!(state.standing(0), Some(Standing::Waiting));
    assert_eq!(state.standing(2), None);
    let direct = GenericGame::new_state(&game(), 3);
    assert_eq!(direct.player_count(), 3);
    assert!(base.try_new_state(2).is_some());
    let two_kinds = RectangleBoard::new(3, 2, 1, 2).unwrap();
    let unplayable = BaseGame::Normal(PathGame::new(two_kinds, vec![], vec![]));
    assert!(!unplayable.is_playable());
    assert!(unplayable.try_new_state(2).is_none());
}

#[test]
fn base_state_carries_out_requests() {
    let mut state = BaseGame::Normal(game()).new_state(2);
    let port = BasePort::Grid(start());
    assert_eq!(state.place_token(1, &port), Err(ErrorKind::WrongTurn));
    assert_eq!(state.place_token(0, &port), Ok(()));
    assert_eq!(state.apply(&Request::PlaceToken { player: 1, port }), Ok(()));
    assert_eq!(
        state.standing(1),
        Some(Standing::Playing { port, facing: BaseTLoc::Grid(GridLoc { x: 0, y: 0 }) })
    );
    let kind = BaseKind::Regular(RegularKind(0));
    let still = BaseGAct::Square(Rotation::<4>::identity());
    let sixth = BaseGAct::Hexagon(Rotation::<6>::identity());
    let at = BaseTLoc::Grid(GridLoc { x: 2, y: 1 });
    assert_eq!(state.place_tile(0, &kind, 0, &sixth, &at), Err(ErrorKind::VariantMismatch));
    assert!(state.tile(&at).is_none());
    assert_eq!(state.pass_turn(0), Err(ErrorKind::TilesLeft));
    assert_eq!(state.place_tile(0, &kind, 0, &still, &at), Ok(()));
    assert_eq!(state.tile(&at).unwrap().output(0), 1);
    assert_eq!(state.apply(&place(1, 0, 2, 1)), Err(ErrorKind::Occupied));
    assert_eq!(state.apply(&Request::PassTurn { player: 1 }), Err(ErrorKind::TilesLeft));
    assert_eq!(state.num_tiles_by_kind(0, &kind), Some(4));
    assert_eq!(state.num_tiles_by_kind(1, &kind), Some(5));
    assert_eq!(state.current_player(), 1);
}

#[test]
fn ended_game_turns_every_request_down() {
    let mut state = BaseGame::Normal(game()).new_state(2);
    let port = BasePort::Grid(start());
    assert_eq!(state.place_token(0, &port), Ok(()));
    assert_eq!(state.place_token(1, &port), Ok(()));
    assert_eq!(state.apply(&place(0, 2, 0, 0)), Ok(()));
    assert!(state.game_over());
    let requests = [
        place(1, 0, 1, 1),
        place(0, 0, 1, 1),
        Request::PassTurn { player: 1 },
        Request::PlaceToken { player: 1, port },
    ];
    for request in requests.iter() {
        assert_eq!(state.apply(request), Err(ErrorKind::GameOver));
        assert!(state.game_over());
    }
}

#[test]
fn session_runs_from_joining_to_the_end() {
    let mut session = GameInstance::new(GameId(7), BaseGame::Normal(game()));
    assert_eq!(session.id(), GameId(7));
    assert!(session.state().is_none());
    assert!(session.players().is_empty());
    let port = BasePort::Grid(start());
    assert_eq!(
        session.handle(&Request::PlaceToken { player: 0, port }),
        Response::Rejected(ErrorKind::NotStarted)
    );
    assert_eq!(session.join("ada".to_string()), Response::Accepted);
    assert_eq!(session.join("bob".to_string()), Response::Accepted);
    assert_eq!(session.players(), &vec!["ada".to_string(), "bob".to_string()]);
    assert_eq!(session.start(), Response::Accepted);
    assert_eq!(session.start(), Response::Rejected(ErrorKind::AlreadyStarted));
    assert_eq!(session.join("cy".to_string()), Response::Rejected(ErrorKind::AlreadyStarted));
    assert_eq!(session.players().len(), 2);
    assert_eq!(session.state().as_ref().unwrap().player_count(), 2);
    assert_eq!(
        session.handle(&Request::PlaceToken { player: 1, port }),
        Response::Rejected(ErrorKind::WrongTurn)
    );
    assert_eq!(session.handle(&Request::PlaceToken { player: 0, port }), Response::Accepted);
    assert_eq!(session.handle(&Request::PlaceToken { player: 1, port }), Response::Accepted);
    assert_eq!(session.handle(&place(0, 0, 2, 1)), Response::Accepted);
    assert_eq!(session.handle(&place(1, 0, 2, 1)), Response::Rejected(ErrorKind::Occupied));
    assert_eq!(session.handle(&place(1, 2, 0, 0)), Response::Accepted);
    assert!(!session.state().as_ref().unwrap().game_over());
    assert_eq!(session.handle(&place(0, 0, 0, 1)), Response::Accepted);
    assert!(session.state().as_ref().unwrap().game_over());
    assert_eq!(session.handle(&place(1, 0, 1, 1)), Response::Rejected(ErrorKind::GameOver));
    assert_eq!(session.game().board(), BaseBoard::Rectangle(RectangleBoard::new(3, 2, 1, 1).unwrap()));
}

#[test]
fn session_of_an_unplayable_game_does_not_start() {
    let two_kinds = RectangleBoard::new(3, 2, 1, 2).unwrap();
    let missing = BaseGame::Normal(PathGame::new(two_kinds, vec![start()], vec![(RegularKind(0), 5)]));
    let mut session = GameInstance::new(GameId(1), missing);
    assert_eq!(session.join("ada".to_string()), Response::Accepted);
    assert_eq!(session.start(), Response::Rejected(ErrorKind::NotPlayable));
    assert!(session.state().is_none());
    assert_eq!(session.join("bob".to_string()), Response::Accepted);
}

#[test]
fn base_board_tells_what_lies_where() {
    let board = BaseBoard::Rectangle(RectangleBoard::new(3, 2, 1, 1).unwrap());
    let at = BaseTLoc::Grid(GridLoc { x: 1, y: 0 });
    let right = BasePort::Grid(GridPort { x: 2, y: 0, dx: 0, dy: 1 });
    let top = BasePort::Grid(GridPort { x: 1, y: 0, dx: 1, dy: 0 });
    assert_eq!(board.num_ports_around(), 4);
    assert_eq!(board.tile_port(&at, 1), Some(right));
    assert_eq!(board.tile_port(&at, 4), None);
    assert_eq!(board.port_index(&at, &right), Some(1));
    assert_eq!(board.port_index(&at, &BasePort::Grid(start())), None);
    assert_eq!(board.across(&at, &right), Some(BaseTLoc::Grid(GridLoc { x: 2, y: 0 })));
    assert_eq!(board.across(&at, &top), None);
    assert_eq!(board.entry(&top), Some(at));
    assert_eq!(board.entry(&right), None);
    assert!(board.is_boundary_port(&top));
    assert!(!board.is_boundary_port(&right));
}

#[test]
fn base_game_tells_its_rules() {
    let base = BaseGame::Normal(game());
    let kind = BaseKind::Regular(RegularKind(0));
    assert_eq!(base.start_ports(), vec![BasePort::Grid(start())]);
    assert!(base.allots(&kind));
    assert!(!base.allots(&BaseKind::Regular(RegularKind(1))));
    assert_eq!(base.num_tiles_per_player(&kind), 5);
    assert!(base.lists_tiles());
    let tiles = base.all_tiles();
    assert_eq!(tiles.len(), 3);
    assert_eq!(tiles[1], BaseTile::Square(RegularTile::<4>::new(RegularKind(0), 1, vec![2, 3, 0, 1]).unwrap()));
    let wide = RectangleBoard::new(3, 2, 6, 1).unwrap();
    assert!(!BaseGame::Normal(PathGame::new(wide, vec![], vec![])).lists_tiles());
}

#[test]
fn base_state_shows_itself_to_a_player() {
    let state = BaseGame::Normal(game()).new_state(2);
    let kind = BaseKind::Regular(RegularKind(0));
    let seen = state.seen_by(0);
    assert_eq!(seen.num_tiles_by_kind(1, &kind), Some(5));
    let BaseGameState::Normal(inner) = &seen;
    assert!(inner.hand(0).tile(&RegularKind(0), 0).unwrap().visible());
    assert!(!inner.hand(1).tile(&RegularKind(0), 0).unwrap().visible());
    let copy = state.duplicate();
    let BaseGameState::Normal(inner) = &copy;
    assert!(inner.hand(1).tile(&RegularKind(0), 0).unwrap().visible());
    assert_eq!(copy.player_count(), 2);
}
