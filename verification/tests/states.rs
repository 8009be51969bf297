use pathgame::board::{Board, GridLoc, GridPort};
use pathgame::deal::is_playable;
use pathgame::error::ErrorKind;
use pathgame::game::PathGame;
use pathgame::game_state::GameState;
use pathgame::rectangle::RectangleBoard;
use pathgame::tile::{GAct, RegularKind, RegularTile, Rotation, Tile};
use pathgame::travel::Standing;

type Square = RegularTile<4>;
type Normal = PathGame<RectangleBoard, Square>;

const KIND_A: RegularKind = RegularKind(0);

fn start() -> GridPort {
    GridPort { x: 0, y: 0, dx: 1, dy: 0 }
}

fn loc(x: u32, y: u32) -> GridLoc {
    GridLoc { x, y }
}

fn game() -> Normal {
    let board = RectangleBoard::new(3, 2, 1, 1).unwrap();
    PathGame::new(board, vec![start()], vec![(KIND_A, 5)])
}

fn outputs(tile: &Square) -> Vec<u32> {
    (0..tile.num_ports()).map(|p| tile.output(p)).collect()
}

fn begun(players: u32) -> GameState<Normal> {
    let g = game();
    assert!(is_playable(&g));
    let mut state = GameState::new(&g, players);
    for p in 0..players {
        assert_eq!(state.place_token(p, &start()), Ok(()));
    }
    state
}

fn still() -> Rotation<4> {
    Rotation::<4>::identity()
}

#[test]
fn path_game_end_to_end() {
    let g = game();
    assert!(is_playable(&g));
    let mut state = GameState::new(&g, 2);
    assert_eq!(state.player_count(), 2);
    assert!(!state.game_over());
    assert_eq!(state.current_player(), 0);
    for p in 0..2 {
        let hand = state.hand(p);
        assert_eq!(hand.num_tiles_by_kind(&KIND_A), 5);
        assert!(!hand.has_kind(&RegularKind(1)));
        assert_eq!(hand.tiles().len(), 1);
        assert_eq!(state.standing(p), Standing::Waiting);
    }
    assert_eq!(state.place_token(0, &start()), Ok(()));
    assert_eq!(state.place_token(1, &start()), Ok(()));
    assert_eq!(state.place_tile(0, &KIND_A, 0, &still(), &loc(2, 1)), Ok(()));
    assert_eq!(
        state.place_tile(1, &KIND_A, 0, &still(), &loc(2, 1)),
        Err(ErrorKind::Occupied)
    );
    assert_eq!(state.hand(0).num_tiles_by_kind(&KIND_A), 4);
    assert_eq!(state.hand(1).num_tiles_by_kind(&KIND_A), 5);
    assert_eq!(outputs(state.tile(&loc(2, 1)).unwrap()), vec![1, 0, 3, 2]);
    assert_eq!(state.current_player(), 1);
}

#[test]
fn tiles_are_dealt_round_the_deck() {
    let state = GameState::new(&game(), 3);
    let codes = [vec![1, 0, 3, 2], vec![2, 3, 0, 1], vec![3, 2, 1, 0]];
    for p in 0..3u32 {
        let hand = state.hand(p);
        for j in 0..5u32 {
            let tile = hand.tile(&KIND_A, j).unwrap();
            assert_eq!(outputs(tile), codes[((p * 5 + j) % 3) as usize]);
            assert_eq!(tile.kind(), KIND_A);
        }
    }
}

#[test]
fn tiles_are_dealt_by_kind() {
    let board = RectangleBoard::new(2, 2, 1, 2).unwrap();
    let g: Normal = PathGame::new(board, vec![start()], vec![(RegularKind(0), 1), (RegularKind(1), 4)]);
    assert!(is_playable(&g));
    let state = GameState::new(&g, 2);
    assert_eq!(state.hand(0).num_tiles_by_kind(&RegularKind(0)), 1);
    assert_eq!(state.hand(1).num_tiles_by_kind(&RegularKind(1)), 4);
    assert_eq!(outputs(state.hand(1).tile(&RegularKind(0), 0).unwrap()), vec![2, 3, 0, 1]);
    assert_eq!(state.hand(1).tile(&RegularKind(1), 3).unwrap().kind(), RegularKind(1));
    assert_eq!(outputs(state.hand(1).tile(&RegularKind(1), 3).unwrap()), vec![2, 3, 0, 1]);
}

#[test]
fn playable_asks_for_every_kind_of_the_board() {
    let two_kinds = RectangleBoard::new(3, 2, 1, 2).unwrap();
    let missing: Normal = PathGame::new(two_kinds, vec![start()], vec![(KIND_A, 5)]);
    assert!(!is_playable(&missing));
    let full: Normal = PathGame::new(two_kinds, vec![], vec![(KIND_A, 5), (RegularKind(1), 0)]);
    assert!(is_playable(&full));
    let wide = RectangleBoard::new(3, 2, 6, 1).unwrap();
    let too_many: Normal = PathGame::new(wide, vec![], vec![(KIND_A, 1)]);
    assert!(!is_playable(&too_many));
    let no_kinds = RectangleBoard::new(3, 2, 1, 0).unwrap();
    let bare: Normal = PathGame::new(no_kinds, vec![], vec![]);
    assert!(is_playable(&bare));
}

#[test]
fn game_without_players_is_over() {
    let mut state = GameState::new(&game(), 0);
    assert!(state.game_over());
    assert_eq!(state.player_count(), 0);
    assert_eq!(state.place_token(0, &start()), Err(ErrorKind::GameOver));
}

#[test]
fn token_is_refused_out_of_turn_or_off_the_start() {
    let mut state = GameState::new(&game(), 2);
    assert_eq!(state.place_token(1, &start()), Err(ErrorKind::WrongTurn));
    assert_eq!(state.place_token(2, &start()), Err(ErrorKind::WrongTurn));
    let elsewhere = GridPort { x: 1, y: 0, dx: 1, dy: 0 };
    assert_eq!(state.place_token(0, &elsewhere), Err(ErrorKind::IllegalPort));
    assert_eq!(state.standing(0), Standing::Waiting);
    assert_eq!(state.current_player(), 0);
    assert_eq!(state.place_token(0, &start()), Ok(()));
    assert_eq!(state.standing(0), Standing::Playing { port: start(), facing: loc(0, 0) });
    assert_eq!(state.current_player(), 1);
    assert_eq!(state.place_token(0, &start()), Err(ErrorKind::WrongTurn));
    assert_eq!(state.place_token(1, &start()), Ok(()));
    assert_eq!(state.current_player(), 0);
    assert_eq!(state.place_token(0, &start()), Err(ErrorKind::TokenPlaced));
}

#[test]
fn start_port_inside_the_board_is_refused() {
    let board = RectangleBoard::new(3, 2, 1, 1).unwrap();
    let inner = GridPort { x: 1, y: 1, dx: 1, dy: 0 };
    let g: Normal = PathGame::new(board, vec![inner], vec![(KIND_A, 1)]);
    let mut state = GameState::new(&g, 1);
    assert_eq!(state.place_token(0, &inner), Err(ErrorKind::IllegalPort));
}

#[test]
fn tile_is_refused_with_the_reason() {
    let mut state = GameState::new(&game(), 2);
    assert_eq!(state.place_tile(0, &KIND_A, 0, &still(), &loc(1, 1)), Err(ErrorKind::TokenMissing));
    assert_eq!(state.place_token(0, &start()), Ok(()));
    assert_eq!(state.place_tile(1, &KIND_A, 0, &still(), &loc(1, 1)), Err(ErrorKind::TokenMissing));
    assert_eq!(state.place_token(1, &start()), Ok(()));
    assert_eq!(state.place_tile(1, &KIND_A, 0, &still(), &loc(1, 1)), Err(ErrorKind::WrongTurn));
    assert_eq!(state.place_tile(7, &KIND_A, 0, &still(), &loc(1, 1)), Err(ErrorKind::WrongTurn));
    assert_eq!(
        state.place_tile(0, &KIND_A, 0, &still(), &loc(3, 1)),
        Err(ErrorKind::IllegalLocation)
    );
    assert_eq!(
        state.place_tile(0, &RegularKind(1), 0, &still(), &loc(1, 1)),
        Err(ErrorKind::UnknownKind)
    );
    assert_eq!(
        state.place_tile(0, &KIND_A, 5, &still(), &loc(1, 1)),
        Err(ErrorKind::IndexOutOfRange)
    );
    assert_eq!(state.pass_turn(0), Err(ErrorKind::TilesLeft));
    assert_eq!(state.pass_turn(1), Err(ErrorKind::WrongTurn));
    assert_eq!(state.hand(0).num_tiles_by_kind(&KIND_A), 5);
    assert!(state.tile(&loc(1, 1)).is_none());
    assert_eq!(state.current_player(), 0);
    assert_eq!(state.place_tile(0, &KIND_A, 4, &still(), &loc(1, 1)), Ok(()));
    assert_eq!(state.hand(0).num_tiles_by_kind(&KIND_A), 4);
}

#[test]
fn token_follows_the_connections() {
    let mut state = begun(2);
    assert_eq!(state.place_tile(0, &KIND_A, 0, &still(), &loc(0, 0)), Ok(()));
    let right_of_first = GridPort { x: 1, y: 0, dx: 0, dy: 1 };
    for p in 0..2 {
        assert_eq!(state.standing(p), Standing::Playing { port: right_of_first, facing: loc(1, 0) });
    }
    assert!(!state.game_over());
    assert_eq!(state.current_player(), 1);
    assert_eq!(state.place_tile(1, &KIND_A, 1, &still(), &loc(1, 0)), Ok(()));
    let top_of_second = GridPort { x: 1, y: 0, dx: 1, dy: 0 };
    assert_eq!(outputs(state.tile(&loc(1, 0)).unwrap()), vec![1, 0, 3, 2]);
    assert_eq!(outputs(state.tile(&loc(0, 0)).unwrap()), vec![1, 0, 3, 2]);
    let _ = top_of_second;
    let under_second = GridPort { x: 1, y: 1, dx: 1, dy: 0 };
    for p in 0..2 {
        assert_eq!(state.standing(p), Standing::Playing { port: under_second, facing: loc(1, 1) });
    }
}

#[test]
fn token_passes_through_tiles_already_placed() {
    let mut state = begun(2);
    assert_eq!(state.place_tile(0, &KIND_A, 0, &still(), &loc(1, 0)), Ok(()));
    assert_eq!(state.standing(0), Standing::Playing { port: start(), facing: loc(0, 0) });
    assert_eq!(state.place_tile(1, &KIND_A, 1, &still(), &loc(0, 0)), Ok(()));
    let under_second = GridPort { x: 1, y: 1, dx: 1, dy: 0 };
    for p in 0..2 {
        assert_eq!(state.standing(p), Standing::Playing { port: under_second, facing: loc(1, 1) });
    }
}

#[test]
fn token_that_leaves_the_board_ends_the_game() {
    let mut state = begun(2);
    assert_eq!(state.place_tile(0, &KIND_A, 2, &still(), &loc(0, 0)), Ok(()));
    assert_eq!(outputs(state.tile(&loc(0, 0)).unwrap()), vec![3, 2, 1, 0]);
    for p in 0..2 {
        assert_eq!(state.standing(p), Standing::Out);
        assert_eq!(state.hand(p).num_tiles_by_kind(&KIND_A), 0);
        assert!(state.hand(p).is_empty());
    }
    assert!(state.game_over());
    assert_eq!(state.place_tile(1, &KIND_A, 0, &still(), &loc(1, 0)), Err(ErrorKind::GameOver));
    assert_eq!(state.pass_turn(1), Err(ErrorKind::GameOver));
    assert_eq!(state.place_token(1, &start()), Err(ErrorKind::GameOver));
    assert!(state.game_over());
}

#[test]
fn rotation_is_applied_before_the_tile_is_placed() {
    let mut state = begun(1);
    assert_eq!(state.place_tile(0, &KIND_A, 0, &Rotation::<4>::new(1), &loc(0, 0)), Ok(()));
    assert_eq!(outputs(state.tile(&loc(0, 0)).unwrap()), vec![3, 2, 1, 0]);
    assert_eq!(state.standing(0), Standing::Out);
    assert!(state.game_over());
}

#[test]
fn players_who_are_out_are_skipped() {
    let board = RectangleBoard::new(3, 2, 1, 1).unwrap();
    let corner = GridPort { x: 3, y: 1, dx: 0, dy: 1 };
    let g: Normal = PathGame::new(board, vec![start(), corner], vec![(KIND_A, 5)]);
    let mut state = GameState::new(&g, 3);
    assert_eq!(state.place_token(0, &start()), Ok(()));
    assert_eq!(state.place_token(1, &corner), Ok(()));
    assert_eq!(state.place_token(2, &start()), Ok(()));
    assert_eq!(state.place_tile(0, &KIND_A, 1, &still(), &loc(2, 1)), Ok(()));
    assert_eq!(state.standing(1), Standing::Playing {
        port: GridPort { x: 2, y: 1, dx: 0, dy: 1 },
        facing: loc(1, 1)
    });
    assert_eq!(state.current_player(), 1);
    assert_eq!(state.place_tile(1, &KIND_A, 0, &still(), &loc(1, 1)), Ok(()));
    assert_eq!(state.standing(1), Standing::Out);
    assert_eq!(state.hand(1).num_tiles_by_kind(&KIND_A), 0);
    assert!(!state.game_over());
    assert_eq!(state.current_player(), 2);
    assert_eq!(state.place_tile(2, &KIND_A, 0, &still(), &loc(1, 0)), Ok(()));
    assert_eq!(state.current_player(), 0);
    assert_eq!(state.hand(0).num_tiles_by_kind(&KIND_A), 4);
    assert_eq!(state.hand(2).num_tiles_by_kind(&KIND_A), 4);
    assert_eq!(state.place_tile(0, &KIND_A, 0, &still(), &loc(0, 1)), Ok(()));
    assert_eq!(state.current_player(), 2);
    assert_eq!(state.place_tile(1, &KIND_A, 0, &still(), &loc(2, 0)), Err(ErrorKind::WrongTurn));
    assert_eq!(state.standing(1), Standing::Out);
    assert_eq!(state.standing(0), Standing::Playing { port: start(), facing: loc(0, 0) });
}

#[test]
fn passing_ends_a_game_without_tiles() {
    let board = RectangleBoard::new(3, 2, 1, 1).unwrap();
    let g: Normal = PathGame::new(board, vec![start()], vec![(KIND_A, 0)]);
    assert!(is_playable(&g));
    let mut state = GameState::new(&g, 2);
    assert_eq!(state.pass_turn(0), Err(ErrorKind::TokenMissing));
    assert_eq!(state.place_token(0, &start()), Ok(()));
    assert_eq!(state.place_token(1, &start()), Ok(()));
    assert!(!state.game_over());
    assert_eq!(state.place_tile(0, &KIND_A, 0, &still(), &loc(0, 0)), Err(ErrorKind::IndexOutOfRange));
    assert_eq!(state.pass_turn(0), Ok(()));
    assert!(state.game_over());
    assert_eq!(state.current_player(), 1);
}

#[test]
fn single_player_plays_until_out() {
    let mut state = begun(1);
    assert_eq!(state.current_player(), 0);
    assert_eq!(state.place_tile(0, &KIND_A, 0, &still(), &loc(0, 0)), Ok(()));
    assert!(!state.game_over());
    assert_eq!(state.current_player(), 0);
    assert_eq!(state.place_tile(0, &KIND_A, 1, &still(), &loc(1, 0)), Ok(()));
    assert_eq!(state.standing(0), Standing::Out);
    assert!(state.game_over());
}

fn parts(state: &GameState<Normal>) -> Option<GameState<Normal>> {
    let g = game();
    let mut hands = Vec::new();
    for hand in state.all_hands().iter() {
        let mut copy = pathgame::player_state::PlayerState::new(&g);
        for key in hand.kind_keys().iter() {
            for tile in hand.tiles()[key].iter() {
                copy.add_tile(tile.duplicate());
            }
        }
        hands.push(copy);
    }
    let placed = state.placements().iter().map(|(l, t)| (*l, t.duplicate())).collect();
    GameState::restore(
        state.board_ref().duplicate(),
        state.start_port_list().clone(),
        placed,
        hands,
        state.all_tokens().clone(),
        state.current_player(),
        state.game_over(),
    )
}

#[test]
fn state_is_restored_from_its_parts() {
    let mut state = begun(2);
    assert_eq!(state.place_tile(0, &KIND_A, 0, &still(), &loc(0, 0)), Ok(()));
    let copy = parts(&state).unwrap();
    assert_eq!(copy.current_player(), 1);
    assert_eq!(copy.player_count(), 2);
    assert!(!copy.game_over());
    assert_eq!(copy.all_tokens(), state.all_tokens());
    assert_eq!(copy.placements(), state.placements());
    assert_eq!(copy.start_port_list(), state.start_port_list());
    assert_eq!(copy.board_ref(), state.board_ref());
    for p in 0..2 {
        assert_eq!(copy.hand(p).tiles(), state.hand(p).tiles());
    }
    let mut copy = copy;
    assert_eq!(copy.place_tile(1, &KIND_A, 0, &still(), &loc(0, 0)), Err(ErrorKind::Occupied));
    assert_eq!(copy.place_tile(1, &KIND_A, 1, &still(), &loc(1, 0)), Ok(()));
}

#[test]
fn parts_that_do_not_fit_are_not_restored() {
    let g = game();
    let board = *pathgame::game::Game::board(&g);
    let tile = |code: u32| Square::new(KIND_A, 1, pathgame::pairing::nth_matching_ports(4, code)).unwrap();
    let hand = || pathgame::player_state::PlayerState::<Square>::new(&g);
    let playing = Standing::Playing { port: start(), facing: loc(0, 0) };
    let ok = GameState::<Normal>::restore(board, vec![], vec![], vec![hand()], vec![playing], 0, false);
    assert!(ok.is_some());
    let no_hand = GameState::<Normal>::restore(board, vec![], vec![], vec![], vec![playing], 0, false);
    assert!(no_hand.is_none());
    let late = GameState::<Normal>::restore(board, vec![], vec![], vec![hand()], vec![playing], 1, false);
    assert!(late.is_none());
    let out = GameState::<Normal>::restore(board, vec![], vec![], vec![hand()], vec![Standing::Out], 0, false);
    assert!(out.is_none());
    let out = GameState::<Normal>::restore(board, vec![], vec![], vec![hand()], vec![Standing::Out], 0, true);
    assert!(out.is_some());
    let empty = GameState::<Normal>::restore(board, vec![], vec![], vec![], vec![], 0, false);
    assert!(empty.is_none());
    let empty = GameState::<Normal>::restore(board, vec![], vec![], vec![], vec![], 0, true);
    assert!(empty.is_some());
    let twice = vec![(loc(1, 1), tile(0)), (loc(0, 0), tile(1)), (loc(1, 1), tile(2))];
    assert!(GameState::<Normal>::restore(board, vec![], twice, vec![hand()], vec![playing], 0, false).is_none());
    let off = vec![(loc(3, 1), tile(0))];
    assert!(GameState::<Normal>::restore(board, vec![], off, vec![hand()], vec![playing], 0, false).is_none());
    let hidden = vec![(loc(1, 1), tile(0).conceal())];
    assert!(GameState::<Normal>::restore(board, vec![], hidden, vec![hand()], vec![playing], 0, false).is_none());
    let fine = vec![(loc(1, 1), tile(0)), (loc(0, 0), tile(1))];
    assert!(GameState::<Normal>::restore(board, vec![], fine, vec![hand()], vec![playing], 0, false).is_some());
    let astray = Standing::Playing { port: start(), facing: loc(1, 1) };
    assert!(GameState::<Normal>::restore(board, vec![], vec![], vec![hand()], vec![astray], 0, false).is_none());
    let other_board = RectangleBoard::new(3, 2, 1, 2).unwrap();
    assert!(GameState::<Normal>::restore(other_board, vec![], vec![], vec![hand()], vec![playing], 0, false)
        .is_none());
}

#[test]
fn duplicate_copies_the_whole_state() {
    let mut state = begun(2);
    assert_eq!(state.place_tile(0, &KIND_A, 0, &still(), &loc(0, 0)), Ok(()));
    let mut copy = state.duplicate();
    assert_eq!(copy.all_tokens(), state.all_tokens());
    assert_eq!(copy.placements(), state.placements());
    assert_eq!(copy.current_player(), state.current_player());
    assert_eq!(copy.game_over(), state.game_over());
    assert_eq!(copy.board_ref(), state.board_ref());
    assert_eq!(copy.start_port_list(), state.start_port_list());
    for p in 0..2 {
        assert_eq!(copy.hand(p).tiles(), state.hand(p).tiles());
        assert_eq!(copy.hand(p).kind_keys(), state.hand(p).kind_keys());
    }
    assert_eq!(copy.place_tile(1, &KIND_A, 1, &still(), &loc(1, 0)), Ok(()));
    assert!(state.tile(&loc(1, 0)).is_none());
    assert_eq!(state.hand(1).num_tiles_by_kind(&KIND_A), 5);
}

#[test]
fn others_hands_lie_face_down() {
    let mut state = begun(3);
    assert_eq!(state.place_tile(0, &KIND_A, 0, &still(), &loc(2, 1)), Ok(()));
    let seen = state.seen_by(1);
    assert_eq!(seen.hand(1).tiles(), state.hand(1).tiles());
    for p in [0, 2] {
        let shown = seen.hand(p);
        let held = state.hand(p);
        assert_eq!(shown.num_tiles_by_kind(&KIND_A), held.num_tiles_by_kind(&KIND_A));
        for j in 0..shown.num_tiles_by_kind(&KIND_A) {
            let tile = shown.tile(&KIND_A, j).unwrap();
            assert!(!tile.visible());
            assert_eq!(*tile, held.tile(&KIND_A, j).unwrap().conceal());
        }
    }
    assert_eq!(seen.placements(), state.placements());
    assert_eq!(seen.all_tokens(), state.all_tokens());
    assert_eq!(seen.current_player(), 1);
    let mut seen = seen;
    assert_eq!(seen.place_tile(1, &KIND_A, 0, &still(), &loc(1, 1)), Ok(()));
    assert_eq!(seen.place_tile(2, &KIND_A, 0, &still(), &loc(0, 1)), Err(ErrorKind::HiddenTile));
    let nobody = state.seen_by(9);
    for p in 0..3 {
        assert!(!nobody.hand(p).tile(&KIND_A, 0).unwrap().visible());
    }
}

#[test]
fn hand_copies_keep_kinds_and_order() {
    let state = GameState::new(&game(), 1);
    let hand = state.hand(0);
    let copy = hand.duplicate();
    assert_eq!(copy.tiles(), hand.tiles());
    let hidden = hand.concealed();
    assert_eq!(hidden.kind_keys(), hand.kind_keys());
    assert_eq!(hidden.num_tiles_by_kind(&KIND_A), 5);
    assert!(hidden.tiles()[&0].iter().all(|t| !t.visible() && t.kind() == KIND_A));
}

#[test]
fn tokens_that_meet_leave_by_each_others_start() {
    let board = RectangleBoard::new(3, 2, 1, 1).unwrap();
    let side = GridPort { x: 0, y: 0, dx: 0, dy: 1 };
    let g: Normal = PathGame::new(board, vec![start(), side], vec![(KIND_A, 5)]);
    let mut state = GameState::new(&g, 3);
    assert_eq!(state.place_token(0, &start()), Ok(()));
    assert_eq!(state.place_token(1, &side), Ok(()));
    let far = GridPort { x: 3, y: 1, dx: 0, dy: 1 };
    assert_eq!(state.place_token(2, &far), Err(ErrorKind::IllegalPort));
    assert_eq!(state.place_token(2, &side), Ok(()));
    assert_eq!(state.standing(1), Standing::Playing { port: side, facing: loc(0, 0) });
    assert_eq!(state.place_tile(0, &KIND_A, 2, &still(), &loc(0, 0)), Ok(()));
    for p in 0..3 {
        assert_eq!(state.standing(p), Standing::Out);
    }
    assert!(state.game_over());
}
