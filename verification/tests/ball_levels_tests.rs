use zoldath::ball_levels::{f1l12, f2l13, f2l18, f2l19, f2l20, f2l23, f2l24, f2l25, f2l28, f2l29};

#[test]
fn level_1_12_solution() {
    assert_eq!(f1l12(), vec!["orange", "spot", "pink", "yellow", "spot"]);
}

#[test]
fn level_2_13_solution() {
    let s = f2l13();
    assert_eq!(s.len(), 9);
    assert_eq!(s, vec!["hbelt", "pink", "hbelt", "vbelt", "pink", "hbelt", "orange", "hbelt", "vbelt"]);
}

#[test]
fn level_2_18_solution() {
    assert_eq!(
        f2l18(),
        vec!["green", "headset", "yellow", "headset", "cap", "red", "headset", "blue", "headset", "cap"]
    );
}

#[test]
fn level_2_19_solution() {
    assert_eq!(f2l19(), vec!["yellow", "water", "cap", "water", "cap", "grass", "water"]);
}

#[test]
fn level_2_20_solution() {
    assert_eq!(
        f2l20(),
        vec!["black", "cap", "yellow", "cap", "rotate", "rotate", "rotate", "cap", "yellow", "cap", "rotate"]
    );
}

#[test]
fn level_2_23_solution() {
    assert_eq!(f2l23(), vec!["cap", "black", "cap", "spot", "black", "white", "spot"]);
}

#[test]
fn level_2_24_solution() {
    assert_eq!(f2l24(), vec!["grass", "cap", "blue", "cap", "water", "yellow", "water"]);
}

#[test]
fn level_2_25_solution() {
    assert_eq!(f2l25().len(), 13);
    assert_eq!(f2l25()[..5], ["orange", "cap", "green", "cap", "rotate"]);
}

#[test]
fn level_2_28_solution() {
    assert_eq!(
        f2l28(),
        vec!["hbelt", "grass", "water", "hbelt", "vbelt", "grass", "water", "vbelt", "water"]
    );
}

#[test]
fn level_2_29_solution() {
    assert_eq!(f2l29().len(), 18);
    assert_eq!(f2l29()[..3], ["cap", "black", "cap"]);
}
