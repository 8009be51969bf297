use pathgame::board::GridPort;
use pathgame::selection::{clicked_label, first_clicked, shown_at, SelectedTile, TileSelect};
use pathgame::tile::{GAct, RegularKind, RegularTile, Rotation};
use pathgame::tile_base::{BaseGAct, BaseKind, BaseTile, ButtonAction};

fn tile(code: u32) -> BaseTile {
    let ports = pathgame::pairing::nth_matching_ports(4, code);
    BaseTile::Square(RegularTile::<4>::new(RegularKind(0), 1, ports).unwrap())
}

fn quarter(steps: i32) -> BaseGAct {
    BaseGAct::Square(Rotation::<4>::new(steps))
}

fn entries() -> Vec<TileSelect> {
    (0..3).map(|i| TileSelect::new(BaseKind::Regular(RegularKind(0)), i, quarter(i as i32))).collect()
}

#[test]
fn first_clicked_is_the_first_set_flag() {
    assert_eq!(first_clicked(&vec![]), None);
    assert_eq!(first_clicked(&vec![false, false]), None);
    assert_eq!(first_clicked(&vec![false, true, true]), Some(1));
    assert_eq!(first_clicked(&vec![true]), Some(0));
}

#[test]
fn clicked_label_is_the_label_of_the_first_click() {
    let ports = vec![
        GridPort { x: 0, y: 0, dx: 1, dy: 0 },
        GridPort { x: 1, y: 0, dx: 1, dy: 0 },
        GridPort { x: 2, y: 0, dx: 1, dy: 0 },
    ];
    assert_eq!(clicked_label(&vec![false, true, true], &ports), Some(ports[1]));
    assert_eq!(clicked_label(&vec![false, false, false], &ports), None);
}

#[test]
fn new_entry_is_not_selected() {
    let entry = TileSelect::new(BaseKind::Regular(RegularKind(4)), 7, quarter(3));
    assert!(!entry.selected());
    assert_eq!(*entry.kind(), BaseKind::Regular(RegularKind(4)));
    assert_eq!(entry.index(), 7);
    assert_eq!(*entry.action(), quarter(3));
    let chosen = entry.with_selected(true);
    assert!(chosen.selected());
    assert_eq!(chosen.index(), 7);
}

#[test]
fn click_selects_the_first_clicked_tile() {
    let tiles = vec![tile(0), tile(1), tile(2)];
    let mut shown = entries();
    let mut selected = SelectedTile::none();
    selected.select(&mut shown, &tiles, &vec![false, true, true]);
    assert_eq!(selected, SelectedTile(1, Some(quarter(1)), Some(tile(1))));
    let flags: Vec<bool> = shown.iter().map(|e| e.selected()).collect();
    assert_eq!(flags, vec![false, true, false]);
    selected.select(&mut shown, &tiles, &vec![true, false, false]);
    assert_eq!(selected, SelectedTile(0, Some(quarter(0)), Some(tile(0))));
    let flags: Vec<bool> = shown.iter().map(|e| e.selected()).collect();
    assert_eq!(flags, vec![true, false, false]);
}

#[test]
fn no_click_changes_nothing() {
    let tiles = vec![tile(0), tile(1), tile(2)];
    let mut shown = entries();
    let mut selected = SelectedTile::none();
    selected.select(&mut shown, &tiles, &vec![false, false, true]);
    let before = (selected.clone(), shown.clone());
    selected.select(&mut shown, &tiles, &vec![false, false, false]);
    assert_eq!((selected, shown), before);
}

#[test]
fn buttons_turn_the_selected_tile() {
    let back = ButtonAction::Rotation { num_times: -1 };
    let forth = ButtonAction::Rotation { num_times: 1 };
    let mut selected = SelectedTile(2, Some(quarter(1)), Some(tile(0)));
    selected.press(&vec![forth, forth]);
    assert_eq!(selected, SelectedTile(2, Some(quarter(3)), Some(tile(0))));
    selected.press(&vec![back]);
    assert_eq!(selected.1, Some(quarter(2)));
    selected.press(&vec![]);
    assert_eq!(selected.1, Some(quarter(2)));
    selected.press(&vec![forth, forth]);
    assert_eq!(selected.1, Some(BaseGAct::Square(Rotation::<4>::identity())));
}

#[test]
fn buttons_do_nothing_without_a_selection() {
    let forth = ButtonAction::Rotation { num_times: 1 };
    let mut selected = SelectedTile::none();
    selected.press(&vec![forth]);
    assert_eq!(selected, SelectedTile::none());
    let mut no_tile = SelectedTile(0, Some(quarter(1)), None);
    no_tile.press(&vec![forth]);
    assert_eq!(no_tile.1, Some(quarter(1)));
    let sixth = BaseGAct::Hexagon(Rotation::<6>::new(1));
    let mut astray = SelectedTile(0, Some(sixth), Some(tile(0)));
    astray.press(&vec![forth]);
    assert_eq!(astray.1, Some(sixth));
}

#[test]
fn piece_is_shown_at_the_hovered_slot() {
    let slots = vec![(0.5, 0.0), (1.5, 0.0), (2.5, 0.0)];
    let pointer = (9.0, 9.0);
    assert_eq!(shown_at(&vec![false, true, true], &slots, pointer), (1.5, 0.0));
    assert_eq!(shown_at(&vec![false, false, false], &slots, pointer), pointer);
    assert_eq!(shown_at(&vec![], &vec![], pointer), pointer);
}
