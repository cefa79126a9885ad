use zoldath::game::party_house::{Guest, GuestType, House};
use zoldath::rng::Rng;

fn house() -> House {
    let mut rng = Rng::new(58071757);
    rng.roll_onto(45);
    House::new(rng)
}

#[test]
fn guest_type_tables() {
    assert_eq!(GuestType::WildBuddy.cost(), 0);
    assert_eq!(GuestType::Bartender.cost(), 11);
    assert_eq!(GuestType::Superhero.cost(), 50);
    assert_eq!(GuestType::TicketTaker.base_pop(), -1);
    assert_eq!(GuestType::Caterer.base_pop(), 4);
    assert_eq!(GuestType::Gangster.base_cash(), 4);
    assert_eq!(GuestType::Stylist.base_cash(), -1);
    assert!(GuestType::Rockstar.is_trouble());
    assert!(!GuestType::OldFriend.is_trouble());
    assert!(GuestType::Hippy.is_white_flag());
    assert!(GuestType::CuteDog.is_white_flag());
    assert!(!GuestType::Gambler.is_white_flag());
    assert_eq!(GuestType::Gambler.emoji(), "🎰");
    assert_eq!(GuestType::WildBuddy.emoji(), "🤪");
}

#[test]
fn stars_cost_at_least_25() {
    assert!(GuestType::Dinosaur.is_star());
    assert!(GuestType::Mermaid.is_star());
    assert!(!GuestType::Bartender.is_star());
    assert!(!GuestType::WildBuddy.is_star());
}

#[test]
fn new_guest_takes_the_type_defaults() {
    let g = Guest::new(GuestType::Gambler);
    assert_eq!(g.gtype(), GuestType::Gambler);
    assert_eq!(g.pop(), 2);
    assert_eq!(g.cash(), 3);
    assert_eq!(g.trouble(), 1);
    let g = Guest::new(GuestType::OldFriend);
    assert_eq!(g.trouble(), 0);
}

#[test]
fn base_pop_increments_up_to_nine() {
    let mut g = Guest::new(GuestType::Caterer);
    for _ in 0..4 {
        g.increment_base_pop();
    }
    assert_eq!(g.pop(), 8);
    g.increment_base_pop();
    assert_eq!(g.pop(), 9);
    g.increment_base_pop();
    assert_eq!(g.pop(), 9);
}

#[test]
fn reset_restores_trouble() {
    let mut g = Guest::new(GuestType::Rockstar);
    g.reset();
    assert_eq!(g.trouble(), 1);
    assert_eq!(g.gtype(), GuestType::Rockstar);
}

#[test]
fn new_house_starting_state() {
    let h = house();
    assert_eq!(h.pop(), 0);
    assert_eq!(h.cash(), 0);
    assert_eq!(h.house_size(), 5);
    assert_eq!(h.deck_size(), 10);
    let types: Vec<GuestType> = h.cheat_deck().iter().map(|g| g.gtype()).collect();
    let (w, r, o) = (GuestType::WildBuddy, GuestType::RichPal, GuestType::OldFriend);
    assert_eq!(types, vec![w, w, w, w, r, r, o, o, o, o]);
}

#[test]
fn pop_is_clamped_to_0_through_65() {
    let mut h = house();
    h.add_pop(-3);
    assert_eq!(h.pop(), 0);
    h.add_pop(40);
    assert_eq!(h.pop(), 40);
    h.add_pop(40);
    assert_eq!(h.pop(), 65);
    h.add_pop(-5);
    assert_eq!(h.pop(), 60);
}

#[test]
fn cash_is_clamped_and_debt_costs_pop() {
    let mut h = house();
    h.add_pop(10);
    h.add_cash(50);
    assert_eq!(h.cash(), 30);
    h.add_cash(-31);
    assert_eq!(h.cash(), 0);
    assert_eq!(h.pop(), 3);
    h.add_cash(-1);
    assert_eq!(h.cash(), 0);
    assert_eq!(h.pop(), 0);
    h.add_cash(4);
    h.add_cash(-4);
    assert_eq!(h.cash(), 0);
    assert_eq!(h.pop(), 0);
}

#[test]
fn buying_needs_enough_pop() {
    let mut h = house();
    assert!(!h.buy_guest(GuestType::Gambler));
    assert_eq!(h.deck_size(), 10);
    h.add_pop(9);
    assert!(h.buy_guest(GuestType::Gambler));
    assert_eq!(h.pop(), 2);
    assert_eq!(h.deck_size(), 11);
    assert_eq!(h.cheat_guest(10).gtype(), GuestType::Gambler);
    assert!(h.buy_guest(GuestType::WildBuddy));
    assert_eq!(h.pop(), 2);
}

#[test]
fn expansion_costs_cash_and_stops_at_34() {
    let mut h = house();
    assert_eq!(h.expansion_cost(), 2);
    assert!(!h.expand());
    h.add_cash(30);
    assert!(h.expand());
    assert_eq!(h.house_size(), 6);
    assert_eq!(h.cash(), 28);
    assert_eq!(h.expansion_cost(), 3);
    while h.can_expand() {
        h.add_cash(30);
        assert!(h.expand());
    }
    assert_eq!(h.house_size(), 34);
    assert_eq!(h.expansion_cost(), 12);
    h.add_cash(30);
    assert!(!h.expand());
    assert_eq!(h.house_size(), 34);
}

#[test]
fn start_day_shuffles_with_the_house_rng() {
    let mut h = house();
    h.start_day();
    let types: String = h
        .cheat_deck()
        .iter()
        .map(|g| match g.gtype() {
            GuestType::WildBuddy => 'W',
            GuestType::RichPal => 'R',
            _ => 'O',
        })
        .collect();
    assert_eq!(types, "WWOWOWOORR");
}

#[test]
fn cheat_guest_mut_edits_the_deck() {
    let mut h = house();
    h.cheat_guest_mut(4).increment_base_pop();
    assert_eq!(h.cheat_guest(4).pop(), 1);
    assert_eq!(h.cheat_guest(5).pop(), 0);
}

#[test]
fn guests_print_like_the_game_screen() {
    assert_eq!(Guest::new(GuestType::Gambler).to_text(), "🎰!^2$3");
    assert_eq!(Guest::new(GuestType::Dinosaur).to_text(), "🦖!⭐");
    assert_eq!(Guest::new(GuestType::Stylist).to_text(), "💈$-1");
    assert_eq!(Guest::new(GuestType::TicketTaker).to_text(), "🎫^-1$2");
}

#[test]
fn house_prints_its_counters_deck_and_rng() {
    let h = house();
    let mut rng = Rng::new(58071757);
    rng.roll_onto(45);
    let expected = format!(
        "^0 $0 [5] [🤪!^2 🤪!^2 🤪!^2 🤪!^2 💵$1 💵$1 👨^1 👨^1 👨^1 👨^1 ] {:?}",
        rng
    );
    assert_eq!(h.to_text(), expected);
    assert_eq!(rng.debug_text(), format!("{:?}", rng));
}
