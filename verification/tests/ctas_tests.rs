use zoldath::ctas::{
    Button, ButtonPress, Ctas, CtasParseError, Input, PlayerInput, Randomize, HEADER_SIZE,
    MAGIC_BYTES, PADDING_SIZE_V1_5,
};

fn header(version: u32, num_inputs: i32, num_randomizes: i32, rerecords: u32, timer: u32) -> Vec<u8> {
    let mut out = Vec::new();
    out.extend(MAGIC_BYTES);
    out.extend(version.to_le_bytes());
    out.extend(num_inputs.to_le_bytes());
    out.extend(num_randomizes.to_le_bytes());
    out.extend(rerecords.to_le_bytes());
    out.extend(timer.to_le_bytes());
    out.extend([0u8; PADDING_SIZE_V1_5]);
    out
}

fn press(held: bool, pressed: bool, released: bool) -> ButtonPress {
    ButtonPress { held, pressed, released }
}

fn sample_movie() -> Ctas {
    let mut a = Input::default();
    a.p1.action1 = press(true, true, false);
    a.p2.start_pressed = true;
    let mut b = Input::default();
    b.p1.up = press(true, false, false);
    b.p2.right = press(false, false, true);
    Ctas {
        version_number: 4,
        inputs: vec![a, b, Input::default()],
        randomizes: vec![
            Randomize { frame: 0, seed_bits: 0x4059_0000_0000_0000 },
            Randomize { frame: 2, seed_bits: 7 },
        ],
        num_rerecords: 12,
        timer: 3456,
    }
}

#[test]
fn button_press_byte_roundtrip() {
    for byte in 0u8..8 {
        let b = ButtonPress::from_byte(byte).unwrap();
        assert_eq!(b.to_byte(), byte);
    }
    assert_eq!(ButtonPress::from_byte(5).unwrap(), press(true, false, true));
    assert_eq!(press(false, true, true).to_byte(), 6);
}

#[test]
fn player_input_word_layout() {
    let p = PlayerInput::from_u32(0b100_0000_0000_0000_0011).unwrap();
    assert_eq!(p.up, press(true, true, false));
    assert_eq!(p.down, ButtonPress::default());
    assert!(p.start_pressed);
    assert_eq!(p.to_bytes(), [3, 0, 4, 0]);
    assert_eq!(PlayerInput::from_bytes([3, 0, 4, 0]).unwrap(), p);
}

#[test]
fn player_input_bytes_roundtrip() {
    let mut p = PlayerInput::default();
    p.action2 = press(false, true, true);
    p.left = press(true, false, false);
    let bytes = p.to_bytes();
    assert_eq!(PlayerInput::from_bytes(bytes).unwrap(), p);
    assert_eq!(u32::from_le_bytes(bytes), (6 << 15) | (1 << 6));
}

#[test]
fn input_bytes_roundtrip() {
    let movie = sample_movie();
    for input in &movie.inputs {
        assert_eq!(Input::from_bytes(input.to_bytes()).unwrap(), *input);
    }
    assert_eq!(Input::default().to_bytes(), [0u8; 8]);
}

#[test]
fn randomize_bytes_layout() {
    let r = Randomize { frame: 0x0102_0304, seed_bits: 0x1122_3344_5566_7788 };
    let bytes = r.to_bytes();
    assert_eq!(bytes, [4, 3, 2, 1, 0x88, 0x77, 0x66, 0x55, 0x44, 0x33, 0x22, 0x11]);
    assert_eq!(Randomize::from_bytes(bytes).unwrap(), r);
}

#[test]
fn movie_roundtrip_through_bytes() {
    let movie = sample_movie();
    let bytes = movie.to_bytes();
    assert_eq!(bytes.len(), HEADER_SIZE + 8 * 3 + 12 * 2);
    assert_eq!(&bytes[0..4], b"CTAS");
    let back = Ctas::from_bytes(&bytes).unwrap();
    assert_eq!(back, movie);
    assert_eq!(back.num_inputs(), 3);
    assert_eq!(back.to_bytes(), bytes);
}

#[test]
fn empty_v3_movie_parses() {
    let bytes = header(3, 0, 0, 0, 0);
    let movie = Ctas::from_bytes(&bytes).unwrap();
    assert_eq!(movie.version_number, 3);
    assert_eq!(movie.num_inputs(), 0);
    assert!(movie.randomizes.is_empty());
    assert_eq!(movie.to_bytes(), bytes);
}

#[test]
fn short_input_is_refused() {
    let bytes = vec![0u8; 100];
    assert!(matches!(Ctas::from_bytes(&bytes), Err(CtasParseError::InsufficientLength(100))));
}

#[test]
fn bad_magic_is_refused() {
    let mut bytes = header(4, 0, 0, 0, 0);
    bytes[0] = b'X';
    assert!(matches!(
        Ctas::from_bytes(&bytes),
        Err(CtasParseError::BadMagicNumber([b'X', b'T', b'A', b'S']))
    ));
}

#[test]
fn unknown_version_is_refused() {
    let bytes = header(5, 0, 0, 0, 0);
    assert!(matches!(Ctas::from_bytes(&bytes), Err(CtasParseError::UnsupportedVersion(5))));
}

#[test]
fn negative_counts_are_refused() {
    let bytes = header(4, -1, 0, 0, 0);
    assert!(matches!(Ctas::from_bytes(&bytes), Err(CtasParseError::BadInputLength(-1))));
    let bytes = header(4, 0, -3, 0, 0);
    assert!(matches!(Ctas::from_bytes(&bytes), Err(CtasParseError::BadInputLength(-3))));
}

#[test]
fn nonzero_padding_is_refused() {
    let mut bytes = header(4, 0, 0, 0, 0);
    bytes[HEADER_SIZE - 1] = 1;
    assert!(matches!(Ctas::from_bytes(&bytes), Err(CtasParseError::BadPadding)));
}

#[test]
fn body_length_must_match_the_header() {
    let mut bytes = header(4, 1, 1, 0, 0);
    bytes.extend([0u8; 8]);
    assert!(matches!(
        Ctas::from_bytes(&bytes),
        Err(CtasParseError::BodyLengthMismatch { expected: 20, actual: 8 })
    ));
}

#[test]
fn add_empty_frames_appends_and_resets_timer() {
    let mut movie = sample_movie();
    movie.add_empty_frames(2);
    assert_eq!(movie.num_inputs(), 5);
    assert_eq!(movie.inputs[3], Input::default());
    assert_eq!(movie.inputs[4], Input::default());
    assert_eq!(movie.timer, 0);
    assert_eq!(movie.randomizes, sample_movie().randomizes);
}

#[test]
fn slice_from_start_keeps_later_randomizes() {
    let mut movie = sample_movie();
    movie.slice(1, None);
    assert_eq!(movie.inputs, sample_movie().inputs[1..].to_vec());
    assert_eq!(movie.randomizes, vec![Randomize { frame: 1, seed_bits: 7 }]);
    assert_eq!(movie.timer, 0);
}

#[test]
fn slice_to_end_keeps_earlier_randomizes() {
    let mut movie = sample_movie();
    movie.slice(0, Some(2));
    assert_eq!(movie.inputs, sample_movie().inputs[..2].to_vec());
    assert_eq!(movie.randomizes, vec![Randomize { frame: 0, seed_bits: 0x4059_0000_0000_0000 }]);
}

#[test]
fn append_shifts_the_other_randomizes() {
    let mut movie = sample_movie();
    movie.append(sample_movie());
    assert_eq!(movie.num_inputs(), 6);
    let frames: Vec<u32> = movie.randomizes.iter().map(|r| r.frame).collect();
    assert_eq!(frames, vec![0, 2, 3, 5]);
    assert_eq!(movie.timer, 0);
}

#[test]
fn insert_empty_frames_delays_later_randomizes() {
    let mut movie = sample_movie();
    movie.insert_empty_frames(1, 4);
    assert_eq!(movie.num_inputs(), 7);
    assert_eq!(movie.inputs[0], sample_movie().inputs[0]);
    for k in 1..5 {
        assert_eq!(movie.inputs[k], Input::default());
    }
    assert_eq!(movie.inputs[5], sample_movie().inputs[1]);
    let frames: Vec<u32> = movie.randomizes.iter().map(|r| r.frame).collect();
    assert_eq!(frames, vec![0, 6]);
    assert_eq!(movie.timer, 0);
}

#[test]
fn fix_incongruences_repairs_actions_only() {
    let mut a = Input::default();
    a.p1.action1 = press(true, true, false);
    a.p1.up = press(true, true, false);
    let mut b = Input::default();
    // action1 let go without a release; up let go without a release (an arrow)
    b.p1.action2 = press(true, false, false);
    let mut movie = Ctas {
        version_number: 4,
        inputs: vec![a, b],
        randomizes: vec![],
        num_rerecords: 0,
        timer: 9,
    };
    let fixes = movie.fix_incongruences();
    assert_eq!(fixes, vec![(1, Button::Action1), (1, Button::Action2)]);
    assert_eq!(movie.inputs[1].p1.action1, press(false, false, true));
    assert_eq!(movie.inputs[1].p1.action2, press(true, true, false));
    assert_eq!(movie.inputs[1].p1.up, ButtonPress::default());
    assert_eq!(movie.timer, 9);
}

#[test]
fn fix_incongruences_on_consistent_movie_changes_nothing() {
    let mut movie = sample_movie();
    movie.inputs[1].p1.action1 = press(true, false, false);
    movie.inputs[2].p1.action1 = press(false, false, true);
    let before = movie.clone();
    let fixes = movie.fix_incongruences();
    assert!(fixes.is_empty());
    assert_eq!(movie, before);
}

#[test]
fn fixing_twice_is_fixing_once() {
    let mut a = Input::default();
    a.p1.action1 = press(true, true, false);
    let mut b = Input::default();
    b.p1.action2 = press(false, false, true);
    let mut c = Input::default();
    c.p1.action2 = press(true, false, false);
    let mut movie = Ctas {
        version_number: 4,
        inputs: vec![a, b, c, Input::default()],
        randomizes: vec![],
        num_rerecords: 2,
        timer: 5,
    };
    let first = movie.fix_incongruences();
    assert_eq!(
        first,
        vec![(1, Button::Action1), (1, Button::Action2), (2, Button::Action2), (3, Button::Action2)]
    );
    let once = movie.clone();
    let second = movie.fix_incongruences();
    assert!(second.is_empty());
    assert_eq!(movie, once);
}

fn long_movie() -> Ctas {
    let mut inputs = vec![Input::default(); 2045];
    inputs[10].p1.action1 = press(true, true, false);
    Ctas {
        version_number: 3,
        inputs,
        randomizes: vec![Randomize { frame: 0, seed_bits: 1 }, Randomize { frame: 811, seed_bits: 2 }],
        num_rerecords: 0,
        timer: 0,
    }
}

#[test]
fn slicing_and_appending_a_long_movie() {
    let bytes = long_movie().to_bytes();
    let ctas = Ctas::from_bytes(&bytes).unwrap();
    assert_eq!(ctas.version_number, 3);
    assert_eq!(ctas.num_inputs(), 2045);
    assert_eq!(ctas.randomizes[0].frame, 0);
    assert_eq!(ctas.randomizes[1].frame, 811);
    assert!(ctas.to_bytes() == bytes);

    let mut ctas = Ctas::from_bytes(&bytes).unwrap();
    ctas.slice(120, None);
    assert_eq!(ctas.randomizes.len(), 1);
    assert_eq!(ctas.randomizes[0].frame, 811 - 120);

    let mut ctas = Ctas::from_bytes(&bytes).unwrap();
    ctas.slice(0, Some(333));
    assert_eq!(ctas.randomizes.len(), 1);
    assert_eq!(ctas.randomizes[0].frame, 0);

    let mut ctas = Ctas::from_bytes(&bytes).unwrap();
    ctas.append(ctas.clone());
    assert_eq!(ctas.num_inputs(), 2045 * 2);
    assert_eq!(ctas.randomizes.len(), 4);
    assert_eq!(ctas.randomizes[0].frame, 0);
    assert_eq!(ctas.randomizes[1].frame, 811);
    assert_eq!(ctas.randomizes[2].frame, 2045);
    assert_eq!(ctas.randomizes[3].frame, 2045 + 811);
}

fn reseed(frame: u32, seed: f64) -> Randomize {
    Randomize { frame, seed_bits: seed.to_bits() }
}

#[test]
fn reseedings_compare_seeds_as_floats() {
    let seeds = [f64::NEG_INFINITY, -1.5, -1e-300, -0.0, 0.0, 1e-300, 2.0, f64::INFINITY, f64::NAN];
    for a in seeds {
        for b in seeds {
            let (ra, rb) = (reseed(3, a), reseed(3, b));
            assert_eq!(ra == rb, a == b, "{a} == {b}");
            assert_eq!(ra.partial_cmp(&rb), a.partial_cmp(&b), "{a} vs {b}");
            assert_eq!(ra < rb, a < b, "{a} < {b}");
        }
    }
    assert_eq!(reseed(3, 0.0), reseed(3, -0.0));
    assert_ne!(reseed(3, f64::NAN), reseed(3, f64::NAN));
}

#[test]
fn reseedings_order_by_frame_first() {
    assert!(reseed(1, 5.0) < reseed(2, -5.0));
    assert!(reseed(2, f64::NAN) > reseed(1, 0.0));
    assert_eq!(reseed(2, f64::NAN).partial_cmp(&reseed(2, 0.0)), None);
    assert_ne!(reseed(1, 0.0), reseed(2, 0.0));
}

#[test]
fn default_reseeding_is_frame_zero_seed_zero() {
    assert_eq!(Randomize::default(), reseed(0, 0.0));
}
