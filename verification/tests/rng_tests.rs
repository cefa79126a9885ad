use zoldath::rng::Rng;

#[test]
fn test_mortol_4b_rng() {
    let mut rng = Rng::new(4471);
    rng.roll_onto(3027 + 48);

    // 4th bost nest rng
    rng.roll();
    let timer = 720 - rng.roll_int(0, 360);
    let mut objects = ['F', 'F', 'L', 'L', 'E', 'E', 'E', 'R', 'R', 'S'];
    rng.shuffle(&mut objects);
    assert_eq!(timer, 360);
    assert_eq!(objects[0], 'F');
}

#[test]
fn test_party_house_rng() {
    let mut rng = Rng::new(58071757);
    rng.roll_onto(45);

    let mut dex = vec!['W', 'W', 'W', 'W', 'R', 'R', 'O', 'O', 'O', 'O'];
    rng.shuffle(&mut dex);
    println!("{dex:?} {}", rng.num_rolls);
    rng.shuffle(&mut dex);
    println!("{dex:?} {}", rng.num_rolls);
    dex.push('H');
    dex.push('H');
    rng.roll();
    rng.roll();
    rng.shuffle(&mut dex);
    println!("{dex:?} {}", rng.num_rolls);
}

#[test]
fn party_house_shuffles_give_known_decks() {
    let mut rng = Rng::new(58071757);
    rng.roll_onto(45);
    let mut dex = vec!['W', 'W', 'W', 'W', 'R', 'R', 'O', 'O', 'O', 'O'];
    rng.shuffle(&mut dex);
    assert_eq!(dex, vec!['W', 'W', 'O', 'W', 'O', 'W', 'O', 'O', 'R', 'R']);
    assert_eq!(rng.num_rolls, 54);
    rng.shuffle(&mut dex);
    assert_eq!(dex, vec!['O', 'O', 'W', 'W', 'W', 'R', 'R', 'W', 'O', 'O']);
    assert_eq!(rng.num_rolls, 63);
    dex.push('H');
    dex.push('H');
    rng.roll();
    rng.roll();
    rng.shuffle(&mut dex);
    assert_eq!(dex, vec!['W', 'O', 'W', 'R', 'W', 'O', 'O', 'H', 'W', 'H', 'O', 'R']);
    assert_eq!(rng.num_rolls, 76);
}

#[test]
fn new_generator_has_warmed_up() {
    let rng = Rng::new(7);
    assert_eq!(rng.seed, 7);
    assert_eq!(rng.num_rolls, 20);
}

#[test]
fn rolls_from_seed_zero() {
    let mut rng = Rng::new(0);
    assert_eq!(rng.roll(), 1476884107);
    assert_eq!(rng.roll(), 3822112225);
    assert_eq!(rng.roll(), 2917765975);
    assert_eq!(rng.num_rolls, 23);
}

#[test]
fn same_seed_same_rolls() {
    let mut a = Rng::new(123456);
    let mut b = Rng::new(123456);
    for _ in 0..100 {
        assert_eq!(a.roll(), b.roll());
    }
    assert_eq!(a, b);
}

#[test]
fn roll_int_scales_into_range() {
    let mut rng = Rng::new(1);
    assert_eq!(rng.roll_int(0, 9), 7);
    assert_eq!(rng.roll_int(5, 5), 5);
    assert_eq!(rng.num_rolls, 22);
    for _ in 0..1000 {
        let v = rng.roll_int(3, 8);
        assert!((3..=8).contains(&v));
    }
}

#[test]
fn shuffle_permutes_and_counts_rolls() {
    let mut rng = Rng::new(42);
    let mut v = [0, 1, 2, 3, 4];
    rng.shuffle(&mut v);
    assert_eq!(v, [0, 4, 2, 3, 1]);
    assert_eq!(rng.num_rolls, 24);
    let mut sorted = v;
    sorted.sort();
    assert_eq!(sorted, [0, 1, 2, 3, 4]);
}

#[test]
fn shuffle_of_one_item_does_not_roll() {
    let mut rng = Rng::new(42);
    let mut v = ['x'];
    rng.shuffle(&mut v);
    assert_eq!(v, ['x']);
    assert_eq!(rng.num_rolls, 20);
}

#[test]
fn roll_onto_reaches_the_target_count() {
    let mut a = Rng::new(99);
    a.roll_onto(30);
    let mut b = Rng::new(99);
    for _ in 0..10 {
        b.roll();
    }
    assert_eq!(a.num_rolls, 30);
    assert_eq!(a, b);
    a.roll_onto(30);
    assert_eq!(a.num_rolls, 30);
}

#[test]
fn accessors_give_the_public_fields() {
    let mut rng = Rng::new(99);
    assert_eq!(rng.seed(), 99);
    assert_eq!(rng.num_rolls(), 20);
    rng.roll();
    assert_eq!(rng.num_rolls(), rng.num_rolls);
    assert_eq!(rng.seed(), rng.seed);
}
