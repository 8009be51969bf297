use pathgame::scene::draw_order;

#[test]
fn unchanged_scene_is_not_drawn_anew() {
    assert_eq!(draw_order(&vec![], &vec![]), None);
    assert_eq!(draw_order(&vec![3, 1, 2], &vec![false, false, false]), None);
}

#[test]
fn changed_scene_is_drawn_by_rising_order() {
    assert_eq!(draw_order(&vec![3, 1, 2], &vec![false, true, false]), Some(vec![1, 2, 0]));
    assert_eq!(draw_order(&vec![7], &vec![true]), Some(vec![0]));
    assert_eq!(
        draw_order(&vec![i32::MAX, -5, 0, i32::MIN], &vec![true, true, true, true]),
        Some(vec![3, 1, 2, 0])
    );
}

#[test]
fn parts_of_one_order_keep_their_places() {
    let orders = vec![1, 0, 1, 0, 1, 3, 0];
    let changed = vec![false, false, false, false, false, false, true];
    assert_eq!(draw_order(&orders, &changed), Some(vec![1, 3, 6, 0, 2, 4, 5]));
    let mut by_std: Vec<usize> = (0..orders.len()).collect();
    by_std.sort_by_key(|i| orders[*i]);
    assert_eq!(draw_order(&orders, &changed), Some(by_std));
}
