use amulet_sim::cards::{card_index, Card, Instant, Land, NonPermanent, Spell, CARD_COUNT};
use amulet_sim::game_state::{select_weighted, Library};

fn forest() -> Card {
    Card::Land(Land::Forest)
}

fn pact() -> Card {
    Card::Spell(Spell::NonPermanent(NonPermanent::Instant(Instant::SummonersPact)))
}

fn counts_total(lib: &Library) -> usize {
    lib.cards.iter().sum()
}

#[test]
fn new_library_counts_its_cards() {
    let lib = Library::new(vec![forest(), forest(), pact()], 7);
    assert_eq!(lib.len(), 3);
    assert!(!lib.is_empty());
    assert_eq!(lib.cards.len(), CARD_COUNT);
    assert_eq!(lib.cards[card_index(forest())], 2);
    assert_eq!(lib.cards[card_index(pact())], 1);
    assert_eq!(counts_total(&lib), 3);
}

#[test]
fn empty_library_draws_nothing() {
    let mut lib = Library::new(vec![], 1);
    assert!(lib.is_empty());
    assert_eq!(lib.draw_random_card(), None);
    assert_eq!(lib.len(), 0);
}

#[test]
fn singleton_library_draws_its_card() {
    let mut lib = Library::new(vec![pact()], 99);
    assert_eq!(lib.draw_random_card(), Some(pact()));
    assert_eq!(lib.len(), 0);
    assert_eq!(lib.draw_random_card(), None);
}

#[test]
fn add_card_is_the_inverse_of_a_draw() {
    let mut lib = Library::new(vec![forest(), forest(), pact()], 5);
    let before = lib.cards.clone();
    let drawn = lib.draw_random_card().unwrap();
    assert_eq!(lib.len(), 2);
    lib.add_card(drawn);
    assert_eq!(lib.len(), 3);
    assert_eq!(lib.cards, before);
}

#[test]
fn size_always_equals_the_sum_of_counts() {
    let mut lib = Library::new(vec![forest(), forest(), forest(), pact()], 11);
    for _ in 0..4 {
        assert_eq!(lib.len(), counts_total(&lib));
        lib.draw_random_card();
    }
    assert_eq!(lib.len(), 0);
    assert_eq!(counts_total(&lib), 0);
    lib.add_card(forest());
    lib.add_card(pact());
    assert_eq!(lib.len(), counts_total(&lib));
}

#[test]
fn same_seed_replays_the_same_draw_sequence() {
    let deck = vec![forest(), forest(), forest(), pact(), pact()];
    let mut a = Library::new(deck.clone(), 1234);
    let mut b = Library::new(deck, 1234);
    for _ in 0..5 {
        assert_eq!(a.draw_random_card(), b.draw_random_card());
    }
}

#[test]
fn select_weighted_picks_by_cumulative_count() {
    let mut counts = vec![0usize; CARD_COUNT];
    counts[0] = 3;
    counts[1] = 1;
    assert_eq!(select_weighted(&counts, 0), 0);
    assert_eq!(select_weighted(&counts, 1), 0);
    assert_eq!(select_weighted(&counts, 2), 0);
    assert_eq!(select_weighted(&counts, 3), 1);
}

#[test]
fn select_weighted_skips_empty_entries() {
    let counts = vec![0usize, 0, 2, 0, 5];
    assert_eq!(select_weighted(&counts, 0), 2);
    assert_eq!(select_weighted(&counts, 1), 2);
    assert_eq!(select_weighted(&counts, 2), 4);
    assert_eq!(select_weighted(&counts, 6), 4);
}

#[test]
fn weighted_draw_distribution_converges() {
    // A library of three of one card and one of another must yield the
    // first about three quarters of the time, over many seeds.
    let mut firsts: usize = 0;
    let trials: usize = 2000;
    for seed in 0..trials {
        let mut lib = Library::new(vec![forest(), forest(), forest(), pact()], seed as u64);
        if lib.draw_random_card() == Some(forest()) {
            firsts += 1;
        }
    }
    let low = trials * 70 / 100;
    let high = trials * 80 / 100;
    assert!(firsts >= low && firsts <= high, "drew the common card {firsts} times of {trials}");
}
