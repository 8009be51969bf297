use pathgame::pairing::{check_pairing, count_matchings, nth_matching_ports, rotate_ports};
use pathgame::tile::{GAct, Kind, RegularKind, RegularTile, RegularTileConfig, Rotation, Tile};

fn square(connections: Vec<u32>) -> RegularTile<4> {
    let ports_per_edge = connections.len() as u32 / 4;
    RegularTile::<4>::new(RegularKind(0), ports_per_edge, connections).unwrap()
}

fn outputs<const EDGES: u32>(tile: &RegularTile<EDGES>) -> Vec<u32> {
    (0..tile.num_ports()).map(|p| tile.output(p)).collect()
}

#[test]
fn four_rotations_make_identity() {
    for steps in 0..4 {
        let turn = Rotation::<4>::new(steps);
        let mut all = Rotation::<4>::identity();
        for _ in 0..4 {
            all = all.compose(&turn);
        }
        assert_eq!(all, Rotation::<4>::identity());
    }
}

#[test]
fn six_rotations_make_identity_on_a_hexagon() {
    let turn = Rotation::<6>::new(5);
    let mut all = Rotation::<6>::identity();
    for _ in 0..6 {
        all = all.compose(&turn);
    }
    assert_eq!(all, Rotation::<6>::identity());
}

#[test]
fn compose_is_associative() {
    for a in 0..4 {
        for b in 0..4 {
            for c in 0..4 {
                let (x, y, z) = (Rotation::<4>::new(a), Rotation::<4>::new(b), Rotation::<4>::new(c));
                assert_eq!(x.compose(&y).compose(&z), x.compose(&y.compose(&z)));
            }
        }
    }
}

#[test]
fn compose_adds_steps_round_the_polygon() {
    let r = Rotation::<4>::new(3).compose(&Rotation::<4>::new(2));
    assert_eq!(r.num_steps(), 1);
    let h = Rotation::<6>::new(4).compose(&Rotation::<6>::new(5));
    assert_eq!(h.num_steps(), 3);
}

#[test]
fn identity_is_neutral() {
    let a = Rotation::<4>::new(3);
    assert_eq!(Rotation::<4>::identity().compose(&a), a);
    assert_eq!(a.compose(&Rotation::<4>::identity()), a);
    assert_eq!(Rotation::<4>::identity().num_steps(), 0);
}

#[test]
fn rotation_reduces_its_steps() {
    assert_eq!(Rotation::<4>::new(0).num_steps(), 0);
    assert_eq!(Rotation::<4>::new(1).num_steps(), 1);
    assert_eq!(Rotation::<4>::new(4).num_steps(), 0);
    assert_eq!(Rotation::<4>::new(7).num_steps(), 3);
    assert_eq!(Rotation::<4>::new(-1).num_steps(), 3);
    assert_eq!(Rotation::<4>::new(-4).num_steps(), 0);
    assert_eq!(Rotation::<4>::new(-6).num_steps(), 2);
    assert_eq!(Rotation::<4>::new(i32::MIN).num_steps(), 0);
    assert_eq!(Rotation::<4>::new(i32::MAX).num_steps(), 3);
    assert_eq!(Rotation::<6>::new(-1).num_steps(), 5);
    assert_eq!(Rotation::<6>::new(i32::MIN).num_steps(), 4);
    assert_eq!(Rotation::<0>::new(5).num_steps(), 0);
}

#[test]
fn same_tells_rotations_apart() {
    assert!(Rotation::<4>::new(5).same(&Rotation::<4>::new(1)));
    assert!(!Rotation::<4>::new(2).same(&Rotation::<4>::new(1)));
}

#[test]
fn kind_key_is_its_number() {
    assert_eq!(RegularKind(7).kind_key(), 7);
}

#[test]
fn count_of_matchings() {
    assert_eq!(count_matchings(0), Some(1));
    assert_eq!(count_matchings(1), Some(0));
    assert_eq!(count_matchings(2), Some(1));
    assert_eq!(count_matchings(3), Some(0));
    assert_eq!(count_matchings(4), Some(3));
    assert_eq!(count_matchings(8), Some(105));
    assert_eq!(count_matchings(12), Some(10395));
    assert_eq!(count_matchings(20), Some(654729075));
    assert_eq!(count_matchings(22), None);
    assert_eq!(count_matchings(u32::MAX), Some(0));
    assert_eq!(count_matchings(u32::MAX - 1), None);
}

#[test]
fn matchings_of_four_ports() {
    assert_eq!(nth_matching_ports(4, 0), vec![1, 0, 3, 2]);
    assert_eq!(nth_matching_ports(4, 1), vec![2, 3, 0, 1]);
    assert_eq!(nth_matching_ports(4, 2), vec![3, 2, 1, 0]);
    assert_eq!(nth_matching_ports(4, 3), vec![1, 0, 3, 2]);
    assert_eq!(nth_matching_ports(0, 9), Vec::<u32>::new());
}

#[test]
fn matchings_of_eight_ports_differ() {
    let mut seen: Vec<Vec<u32>> = Vec::new();
    for code in 0..105 {
        let m = nth_matching_ports(8, code);
        assert!(check_pairing(&m));
        assert!(!seen.contains(&m));
        seen.push(m);
    }
}

#[test]
fn check_pairing_finds_faults() {
    assert!(check_pairing(&vec![]));
    assert!(check_pairing(&vec![1, 0]));
    assert!(check_pairing(&vec![2, 3, 0, 1]));
    assert!(!check_pairing(&vec![0, 1]));
    assert!(!check_pairing(&vec![1, 2, 0]));
    assert!(!check_pairing(&vec![1, 0, 4, 2]));
    assert!(!check_pairing(&vec![1, 0, 3, 3]));
    assert!(!check_pairing(&vec![1]));
}

#[test]
fn rotate_ports_moves_every_port() {
    assert_eq!(rotate_ports(&vec![1, 0, 3, 2], 1), vec![3, 2, 1, 0]);
    assert_eq!(rotate_ports(&vec![1, 0, 3, 2], 0), vec![1, 0, 3, 2]);
    assert_eq!(rotate_ports(&vec![2, 3, 0, 1], 1), vec![2, 3, 0, 1]);
    assert_eq!(rotate_ports(&vec![], 0), Vec::<u32>::new());
}

#[test]
fn new_tile_checks_its_pairing() {
    assert!(RegularTile::<4>::new(RegularKind(0), 1, vec![1, 0, 3, 2]).is_some());
    assert!(RegularTile::<4>::new(RegularKind(0), 1, vec![1, 0, 3]).is_none());
    assert!(RegularTile::<4>::new(RegularKind(0), 2, vec![1, 0, 3, 2]).is_none());
    assert!(RegularTile::<4>::new(RegularKind(0), 1, vec![0, 1, 2, 3]).is_none());
    assert!(RegularTile::<4>::new(RegularKind(0), 1, vec![1, 2, 3, 0]).is_none());
    assert!(RegularTile::<4>::new(RegularKind(0), 0, vec![]).is_some());
    assert!(RegularTile::<4>::new(RegularKind(0), u32::MAX, vec![]).is_none());
    assert!(RegularTile::<6>::new(RegularKind(0), 1, vec![5, 4, 3, 2, 1, 0]).is_some());
}

#[test]
fn tile_reports_what_it_is() {
    let tile = RegularTile::<4>::new(RegularKind(3), 2, vec![1, 0, 3, 2, 5, 4, 7, 6]).unwrap();
    assert_eq!(tile.kind(), RegularKind(3));
    assert_eq!(tile.num_ports(), 8);
    assert_eq!(tile.ports_per_edge(), 2);
    assert!(tile.visible());
    assert_eq!(outputs(&tile), vec![1, 0, 3, 2, 5, 4, 7, 6]);
}

#[test]
fn identity_leaves_connections_unchanged() {
    let tile = square(vec![3, 6, 5, 0, 7, 2, 1, 4]);
    let same = tile.apply_action(&Rotation::<4>::identity());
    assert_eq!(outputs(&same), outputs(&tile));
    assert_eq!(same, tile);
}

#[test]
fn rotation_shifts_ports_by_steps_times_ports_per_edge() {
    let tile = square(vec![1, 0, 4, 6, 2, 7, 3, 5]);
    let turned = tile.apply_action(&Rotation::<4>::new(1));
    assert_eq!(outputs(&turned), vec![5, 7, 3, 2, 6, 0, 4, 1]);
    let tile = square(vec![1, 0, 3, 2]);
    assert_eq!(outputs(&tile.apply_action(&Rotation::<4>::new(1))), vec![3, 2, 1, 0]);
    assert_eq!(outputs(&tile.apply_action(&Rotation::<4>::new(2))), vec![1, 0, 3, 2]);
}

#[test]
fn rotating_twice_is_rotating_by_the_sum() {
    let tile = square(vec![3, 6, 5, 0, 7, 2, 1, 4]);
    for a in 0..4 {
        for b in 0..4 {
            let (x, y) = (Rotation::<4>::new(a), Rotation::<4>::new(b));
            let twice = tile.apply_action(&x).apply_action(&y);
            let once = tile.apply_action(&x.compose(&y));
            assert_eq!(outputs(&twice), outputs(&once));
        }
    }
}

#[test]
fn rotation_keeps_the_involution() {
    let tile = square(vec![3, 6, 5, 0, 7, 2, 1, 4]);
    for a in 0..4 {
        let turned = tile.apply_action(&Rotation::<4>::new(a));
        for p in 0..turned.num_ports() {
            assert_ne!(turned.output(p), p);
            assert_eq!(turned.output(turned.output(p)), p);
        }
    }
}

#[test]
fn rotation_action_of_a_tile() {
    let tile = square(vec![1, 0, 3, 2]);
    assert_eq!(tile.rotation_action(-1), Rotation::<4>::new(3));
    assert_eq!(tile.rotation_action(5), Rotation::<4>::new(1));
}

#[test]
fn concealed_tile_shows_nothing() {
    let tile = RegularTile::<4>::new(RegularKind(2), 1, vec![1, 0, 3, 2]).unwrap();
    let hidden = tile.conceal();
    assert!(!hidden.visible());
    assert_eq!(hidden.kind(), RegularKind(2));
    assert_eq!(hidden.num_ports(), 4);
    assert_eq!(hidden.ports_per_edge(), 1);
    let turned = hidden.apply_action(&Rotation::<4>::new(1));
    assert!(!turned.visible());
    assert_eq!(turned, hidden);
}

#[test]
fn duplicate_and_clone_are_equal() {
    let tile = square(vec![3, 6, 5, 0, 7, 2, 1, 4]);
    assert_eq!(tile.duplicate(), tile);
    assert_eq!(tile.clone(), tile);
}

#[test]
fn supports_tells_what_can_be_listed() {
    assert!(RegularTile::<4>::supports(&RegularTileConfig { ports_per_edge: 2, num_kinds: 1 }));
    assert!(RegularTile::<4>::supports(&RegularTileConfig { ports_per_edge: 5, num_kinds: 6 }));
    assert!(!RegularTile::<4>::supports(&RegularTileConfig { ports_per_edge: 5, num_kinds: 7 }));
    assert!(!RegularTile::<4>::supports(&RegularTileConfig { ports_per_edge: 6, num_kinds: 1 }));
    assert!(RegularTile::<4>::supports(&RegularTileConfig { ports_per_edge: 6, num_kinds: 0 }));
    assert!(!RegularTile::<4>::supports(&RegularTileConfig {
        ports_per_edge: u32::MAX,
        num_kinds: 0
    }));
    assert!(RegularTile::<4>::supports(&RegularTileConfig { ports_per_edge: 0, num_kinds: 9 }));
    assert!(RegularTile::<6>::supports(&RegularTileConfig { ports_per_edge: 1, num_kinds: 2 }));
}

#[test]
fn all_square_tiles_are_involutions() {
    let config = RegularTileConfig { ports_per_edge: 2, num_kinds: 1 };
    assert!(RegularTile::<4>::supports(&config));
    let tiles = RegularTile::<4>::all(&config);
    assert_eq!(tiles.len(), 105);
    for tile in tiles.iter() {
        assert_eq!(tile.kind(), RegularKind(0));
        assert!(tile.visible());
        assert_eq!(tile.num_ports(), 8);
        for p in 0..tile.num_ports() {
            let q = tile.output(p);
            assert_ne!(q, p);
            assert_eq!(tile.output(q), p);
        }
    }
}

#[test]
fn all_lists_kind_after_kind() {
    let config = RegularTileConfig { ports_per_edge: 1, num_kinds: 2 };
    let tiles = RegularTile::<4>::all(&config);
    assert_eq!(tiles.len(), 6);
    let kinds: Vec<u32> = tiles.iter().map(|t| t.kind().0).collect();
    assert_eq!(kinds, vec![0, 0, 0, 1, 1, 1]);
    assert_eq!(outputs(&tiles[0]), vec![1, 0, 3, 2]);
    assert_eq!(outputs(&tiles[1]), vec![2, 3, 0, 1]);
    assert_eq!(outputs(&tiles[2]), vec![3, 2, 1, 0]);
    assert_eq!(outputs(&tiles[3]), vec![1, 0, 3, 2]);
    assert_eq!(outputs(&tiles[5]), vec![3, 2, 1, 0]);
}

#[test]
fn all_is_empty_without_kinds_and_single_without_ports() {
    let none = RegularTile::<4>::all(&RegularTileConfig { ports_per_edge: 2, num_kinds: 0 });
    assert!(none.is_empty());
    let bare = RegularTile::<4>::all(&RegularTileConfig { ports_per_edge: 0, num_kinds: 2 });
    assert_eq!(bare.len(), 2);
    assert_eq!(bare[1].num_ports(), 0);
    let hex = RegularTile::<6>::all(&RegularTileConfig { ports_per_edge: 1, num_kinds: 1 });
    assert_eq!(hex.len(), 15);
}

#[test]
fn hidden_tile_is_made_without_connections() {
    let hidden = RegularTile::<4>::hidden(RegularKind(2), 1).unwrap();
    assert!(!hidden.visible());
    assert_eq!(hidden.kind(), RegularKind(2));
    assert_eq!(hidden.num_ports(), 4);
    assert!(hidden.connections().is_empty());
    let shown = RegularTile::<4>::new(RegularKind(2), 1, vec![1, 0, 3, 2]).unwrap();
    assert_eq!(hidden, shown.conceal());
    assert!(RegularTile::<4>::hidden(RegularKind(0), u32::MAX / 4).is_some());
    assert!(RegularTile::<4>::hidden(RegularKind(0), u32::MAX / 4 + 1).is_none());
}

#[test]
fn connections_are_the_outputs() {
    let tile = square(vec![1, 0, 4, 6, 2, 7, 3, 5]);
    assert_eq!(tile.connections(), &outputs(&tile));
}

#[test]
fn inverse_turns_back() {
    for steps in 0..4 {
        let a = Rotation::<4>::new(steps);
        assert_eq!(a.compose(&a.inverse()), Rotation::<4>::identity());
        assert_eq!(a.inverse().compose(&a), Rotation::<4>::identity());
    }
    assert_eq!(Rotation::<4>::new(1).inverse().num_steps(), 3);
    assert_eq!(Rotation::<6>::new(2).inverse().num_steps(), 4);
    assert_eq!(Rotation::<4>::new(0).inverse().num_steps(), 0);
    assert_eq!(Rotation::<0>::new(3).inverse().num_steps(), 0);
    let tile = square(vec![1, 0, 4, 6, 2, 7, 3, 5]);
    let a = Rotation::<4>::new(3);
    assert_eq!(tile.apply_action(&a).apply_action(&a.inverse()), tile);
}
