use pathgame::board::{Board, GridPort};
use pathgame::error::ErrorKind;
use pathgame::game::{Game, PathGame};
use pathgame::player_state::PlayerState;
use pathgame::rectangle::RectangleBoard;
use pathgame::tile::{RegularKind, RegularTile, Tile};

type Square = RegularTile<4>;

fn game(num_kinds: u32) -> PathGame<RectangleBoard, Square> {
    let board = RectangleBoard::new(3, 2, 1, num_kinds).unwrap();
    PathGame::new(board, vec![GridPort { x: 0, y: 0, dx: 1, dy: 0 }], vec![(RegularKind(0), 5)])
}

fn tile(kind: u32, code: u32) -> Square {
    let pairings = [vec![1, 0, 3, 2], vec![2, 3, 0, 1], vec![3, 2, 1, 0]];
    Square::new(RegularKind(kind), 1, pairings[code as usize].clone()).unwrap()
}

fn total(hand: &PlayerState<Square>, kinds: u32) -> u32 {
    (0..kinds).map(|k| hand.num_tiles_by_kind(&RegularKind(k))).sum()
}

#[test]
fn new_hand_has_every_kind_and_no_tile() {
    let hand: PlayerState<Square> = PlayerState::new(&game(3));
    for k in 0..3 {
        assert!(hand.has_kind(&RegularKind(k)));
        assert_eq!(hand.num_tiles_by_kind(&RegularKind(k)), 0);
        assert_eq!(hand.tiles()[&k].len(), 0);
    }
    assert!(!hand.has_kind(&RegularKind(3)));
    assert!(!hand.has_kind(&RegularKind(u32::MAX)));
    assert_eq!(hand.tiles().len(), 3);
    assert!(hand.is_empty());
}

#[test]
fn hand_of_a_board_without_kinds_is_empty() {
    let hand: PlayerState<Square> = PlayerState::new(&game(0));
    assert!(hand.tiles().is_empty());
    assert!(!hand.has_kind(&RegularKind(0)));
    assert!(hand.is_empty());
}

#[test]
fn add_tile_appends_under_its_kind() {
    let mut hand: PlayerState<Square> = PlayerState::new(&game(2));
    hand.add_tile(tile(1, 0));
    hand.add_tile(tile(0, 1));
    hand.add_tile(tile(1, 2));
    assert_eq!(hand.num_tiles_by_kind(&RegularKind(0)), 1);
    assert_eq!(hand.num_tiles_by_kind(&RegularKind(1)), 2);
    assert_eq!(hand.tiles()[&1], vec![tile(1, 0), tile(1, 2)]);
    assert_eq!(hand.tiles()[&0], vec![tile(0, 1)]);
    assert_eq!(hand.tile(&RegularKind(1), 1), Some(&tile(1, 2)));
    assert_eq!(hand.tile(&RegularKind(1), 2), None);
    assert_eq!(hand.tile(&RegularKind(5), 0), None);
    assert!(!hand.is_empty());
}

#[test]
fn remove_tile_takes_the_tile_at_the_index() {
    let mut hand: PlayerState<Square> = PlayerState::new(&game(2));
    hand.add_tile(tile(1, 0));
    hand.add_tile(tile(1, 1));
    hand.add_tile(tile(1, 2));
    assert_eq!(hand.remove_tile(&RegularKind(1), 1), Ok(tile(1, 1)));
    assert_eq!(hand.tiles()[&1], vec![tile(1, 0), tile(1, 2)]);
    assert_eq!(hand.remove_tile(&RegularKind(1), 0), Ok(tile(1, 0)));
    assert_eq!(hand.tiles()[&1], vec![tile(1, 2)]);
}

#[test]
fn remove_tile_out_of_range_is_refused() {
    let mut hand: PlayerState<Square> = PlayerState::new(&game(2));
    assert_eq!(hand.remove_tile(&RegularKind(0), 0), Err(ErrorKind::IndexOutOfRange));
    hand.add_tile(tile(0, 0));
    assert_eq!(hand.remove_tile(&RegularKind(0), 1), Err(ErrorKind::IndexOutOfRange));
    assert_eq!(hand.remove_tile(&RegularKind(0), u32::MAX), Err(ErrorKind::IndexOutOfRange));
    assert_eq!(hand.remove_tile(&RegularKind(1), 0), Err(ErrorKind::IndexOutOfRange));
    assert_eq!(hand.num_tiles_by_kind(&RegularKind(0)), 1);
    assert_eq!(hand.tiles()[&0], vec![tile(0, 0)]);
}

#[test]
fn hand_total_is_adds_minus_removes() {
    let mut hand: PlayerState<Square> = PlayerState::new(&game(3));
    let mut adds = 0;
    let mut removes = 0;
    for round in 0..12u32 {
        hand.add_tile(tile(round % 3, round % 3));
        adds += 1;
        hand.add_tile(tile((round + 1) % 3, 0));
        adds += 1;
        if hand.remove_tile(&RegularKind(round % 2), round % 4).is_ok() {
            removes += 1;
        }
        assert_eq!(total(&hand, 3), adds - removes);
    }
    assert!(removes > 0);
}

#[test]
fn remove_all_tiles_empties_the_hand() {
    let mut hand: PlayerState<Square> = PlayerState::new(&game(3));
    hand.add_tile(tile(2, 0));
    hand.add_tile(tile(0, 1));
    hand.add_tile(tile(2, 2));
    hand.add_tile(tile(1, 1));
    let before = total(&hand, 3);
    let all = hand.remove_all_tiles();
    assert_eq!(all.len() as u32, before);
    assert_eq!(all, vec![tile(0, 1), tile(1, 1), tile(2, 0), tile(2, 2)]);
    for k in 0..3 {
        assert!(hand.has_kind(&RegularKind(k)));
        assert_eq!(hand.num_tiles_by_kind(&RegularKind(k)), 0);
    }
    assert!(hand.is_empty());
    assert!(hand.remove_all_tiles().is_empty());
}

#[test]
fn hand_takes_hidden_tiles() {
    let mut hand: PlayerState<Square> = PlayerState::new(&game(1));
    hand.add_tile(tile(0, 0).conceal());
    assert_eq!(hand.num_tiles_by_kind(&RegularKind(0)), 1);
    assert!(!hand.tile(&RegularKind(0), 0).unwrap().visible());
}

#[test]
fn game_keeps_what_it_was_made_of() {
    let board = RectangleBoard::new(3, 2, 1, 2).unwrap();
    let starts = vec![GridPort { x: 0, y: 0, dx: 1, dy: 0 }, GridPort { x: 3, y: 1, dx: 0, dy: 1 }];
    let game: PathGame<RectangleBoard, Square> = PathGame::new(
        board,
        starts.clone(),
        vec![(RegularKind(0), 5), (RegularKind(1), 2), (RegularKind(0), 7)],
    );
    assert_eq!(*game.board(), board);
    assert_eq!(game.start_ports(), starts);
    assert!(game.allots(&RegularKind(0)));
    assert!(game.allots(&RegularKind(1)));
    assert!(!game.allots(&RegularKind(2)));
    assert_eq!(game.num_tiles_per_player(&RegularKind(0)), 7);
    assert_eq!(game.num_tiles_per_player(&RegularKind(1)), 2);
    let copy = game.clone();
    assert_eq!(copy.start_ports(), starts);
    assert_eq!(copy.num_tiles_per_player(&RegularKind(0)), 7);
    assert_eq!(*copy.board(), board);
}

#[test]
fn all_tiles_of_a_game_are_involutions() {
    let board = RectangleBoard::new(3, 2, 2, 1).unwrap();
    let game: PathGame<RectangleBoard, Square> = PathGame::new(board, vec![], vec![]);
    assert!(Square::supports(&game.board().tile_config()));
    let tiles = game.all_tiles();
    assert_eq!(tiles.len(), 105);
    for t in tiles.iter() {
        for p in 0..t.num_ports() {
            assert_ne!(t.output(p), p);
            assert_eq!(t.output(t.output(p)), p);
        }
    }
}
