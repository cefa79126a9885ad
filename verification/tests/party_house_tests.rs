use zoldath::party_house::guest::{Guest, GuestType};
use zoldath::party_house::house::House;
use zoldath::rng::Rng;

fn house() -> House {
    let mut rng = Rng::new(58071757);
    rng.roll_onto(45);
    House::new(rng)
}

#[test]
fn guest_types_and_defaults() {
    assert_eq!(GuestType::WildBuddy.label(), "WIL");
    assert_eq!(GuestType::Superhero.label(), "*SUP");
    assert!(GuestType::WildBuddy.is_trouble());
    assert!(!GuestType::CuteDog.is_trouble());
    assert!(GuestType::CuteDog.is_flag());
    assert!(GuestType::Mermaid.is_star());
    assert!(!GuestType::CuteDog.is_star());
    assert_eq!(GuestType::Superhero.default_pop(), 3);
    assert_eq!(GuestType::RichPal.default_cash(), 1);
    assert_eq!(GuestType::Alien.cost(), 40);
    let g = Guest::new(GuestType::WildBuddy);
    assert_eq!((g.pop, g.cash, g.trouble), (2, 0, true));
}

#[test]
fn house_starts_with_ten_guests() {
    let h = house();
    assert_eq!(h.deck.len(), 10);
    assert_eq!((h.pop, h.cash, h.house_size), (0, 0, 5));
    assert!(h.deck[4].gtype == GuestType::RichPal);
}

#[test]
fn old_house_clamps_pop_and_cash() {
    let mut h = house();
    h.add_pop(70);
    assert_eq!(h.pop, 65);
    h.add_pop(-70);
    assert_eq!(h.pop, 0);
    h.add_pop(20);
    h.add_cash(31);
    assert_eq!(h.cash, 30);
    h.add_cash(-40);
    assert_eq!((h.cash, h.pop), (0, 13));
}

#[test]
fn old_house_buys_and_expands() {
    let mut h = house();
    assert!(!h.buy_guest(GuestType::CuteDog));
    h.add_pop(10);
    assert!(h.buy_guest(GuestType::CuteDog));
    assert_eq!(h.pop, 3);
    assert_eq!(h.deck.len(), 11);
    assert_eq!(h.rng.num_rolls, 46);
    assert_eq!(h.expansion_cost(), 2);
    h.add_cash(3);
    assert!(h.expand());
    assert_eq!((h.cash, h.house_size), (1, 6));
    assert!(!h.expand());
}

#[test]
fn old_house_start_day_shuffles_and_restores_trouble() {
    let mut h = house();
    h.deck[0].trouble = false;
    h.start_day();
    let letters: String = h.deck.iter().map(|g| g.gtype.label().chars().next().unwrap()).collect();
    assert_eq!(letters, "WWOWOWOORR");
    assert!(h.deck.iter().all(|g| g.trouble == g.gtype.is_trouble()));
    assert_eq!(h.rng.num_rolls, 54);
}

#[test]
fn old_guests_print_with_labels() {
    assert_eq!(Guest::new(GuestType::WildBuddy).to_text(), "WIL!^2");
    assert_eq!(Guest::new(GuestType::RichPal).to_text(), "RIC$1");
    assert_eq!(Guest::new(GuestType::Superhero).to_text(), "*SUP^3");
    assert_eq!(Guest::new(GuestType::Mermaid).to_text(), "*MER");
}
