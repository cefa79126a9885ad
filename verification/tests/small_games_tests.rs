use zoldath::small_games::{toggle_mask, AreaBall, GrassBall};

#[test]
fn toggling_equips_and_unequips() {
    let on = toggle_mask(&[], &[1, 3], |_| true, |_| true);
    assert_eq!(on, vec![10]);
    let off = toggle_mask(&on, &[1, 3], |_| true, |_| true);
    assert_eq!(off, Vec::<u32>::new());
}

#[test]
fn toggling_respects_the_conditions() {
    assert_eq!(toggle_mask(&[10], &[3, 1], |_| true, |_| false), vec![10]);
    assert_eq!(toggle_mask(&[], &[0], |_| false, |_| true), Vec::<u32>::new());
    assert_eq!(toggle_mask(&[4], &[0], |m| m.is_empty(), |_| true), vec![4]);
    assert_eq!(toggle_mask(&[4], &[0], |m| m.len() == 1, |_| true), vec![4, 1]);
}

#[test]
fn toggling_off_removes_the_first_match() {
    assert_eq!(toggle_mask(&[10, 5, 10], &[1, 3], |_| true, |_| true), vec![5, 10]);
}

#[test]
fn paint_skips_masked_and_uncolored_areas() {
    let ball = AreaBall { color: [0u8; 4], masks: vec![] };
    let ball = ball.paint([1, 1, 1, 1]);
    assert_eq!(ball.color, [1, 1, 1, 1]);
    let ball = ball.toggle_mask(&[1, 3], |_| true, |_| true);
    assert_eq!(ball.masks, vec![10]);
    let ball = ball.paint([2, 2, 0, 2]);
    assert_eq!(ball.color, [2, 1, 1, 1]);
    assert_eq!(ball.masks, vec![10]);
}

#[test]
fn rotation_needs_bare_ball() {
    let ball = AreaBall { color: [1u8, 2, 3, 4], masks: vec![] };
    assert_eq!(ball.rotate_ccw().color, [4, 1, 2, 3]);
    let masked = AreaBall { color: [1u8, 2, 3, 4], masks: vec![1] };
    assert_eq!(masked.rotate_ccw(), masked);
}

#[test]
fn planting_and_watering() {
    let ball = GrassBall { grass: [0u8; 2], yellow: [0u8; 2], blue: [0u8; 2], masks: vec![] };
    let ball = ball.toggle_mask(&[0], |_| true, |_| true);
    let ball = ball.plant(1);
    assert_eq!(ball.yellow, [0, 1]);
    let ball = ball.toggle_mask(&[0], |_| true, |_| true);
    assert!(ball.masks.is_empty());
    let ball = ball.plant(0);
    assert_eq!(ball.grass, [1, 1]);
    let ball = ball.plant(2).plant(2);
    assert_eq!(ball.blue, [1, 1]);
    let ball = ball.water();
    assert_eq!((ball.grass, ball.yellow, ball.blue), ([2, 2], [0, 2], [2, 2]));
    let ball = ball.water().water();
    assert_eq!((ball.grass, ball.yellow, ball.blue), ([4, 4], [0, 0], [0, 0]));
}

#[test]
fn watering_skips_masked_areas() {
    let ball = GrassBall { grass: [1u8, 1], yellow: [2u8, 2], blue: [3u8, 3], masks: vec![2] };
    let ball = ball.water();
    assert_eq!((ball.grass, ball.yellow, ball.blue), ([2, 1], [3, 2], [0, 3]));
}

#[test]
fn painting_twice_is_painting_once() {
    let ball = AreaBall { color: [3u8, 0, 1, 2], masks: vec![4] };
    let once = ball.paint([0, 5, 5, 5]);
    assert_eq!(once.color, [3, 5, 1, 5]);
    assert_eq!(once.paint([0, 5, 5, 5]), once);
}

#[test]
fn a_full_turn_restores_the_colors() {
    let start = AreaBall { color: [1u8, 2, 3, 4, 5, 6, 7, 8], masks: vec![] };
    let mut ball = start.clone();
    for _ in 0..8 {
        ball = ball.rotate_ccw();
    }
    assert_eq!(ball, start);
}

#[test]
fn planting_twice_is_planting_once() {
    let ball = GrassBall { grass: [0u8, 3, 0], yellow: [0u8; 3], blue: [0u8; 3], masks: vec![4] };
    let once = ball.plant(0);
    assert_eq!(once.grass, [1, 3, 0]);
    assert_eq!(once.plant(0), once);
}
