use amulet_sim::cards::{
    card_from_index, card_index, card_type, count_type_bits, Card, CardType, HasManaValue,
    Instant, Land, ManaValue, NonPermanent, Permanent, Sorcery, Spell, ARTIFACT, CARD_COUNT,
    CREATURE, ENCHANTMENT, INSTANT, LAND, SORCERY,
};

#[test]
fn card_type_of_plain_land_is_land() {
    assert_eq!(card_type(Card::Land(Land::Forest)).bits, LAND);
    assert_eq!(card_type(Card::Land(Land::Vesuva)).bits, LAND);
}

#[test]
fn card_type_of_urzas_saga_is_land_and_enchantment() {
    let t = card_type(Card::Land(Land::UrzasSaga));
    assert_eq!(t.bits, LAND | ENCHANTMENT);
    assert_eq!(count_type_bits(t.bits), 2);
}

#[test]
fn card_type_of_spells() {
    assert_eq!(
        card_type(Card::Spell(Spell::Permanent(Permanent::AmuletOfVigor))).bits,
        ARTIFACT
    );
    assert_eq!(
        card_type(Card::Spell(Spell::Permanent(Permanent::Spelunking))).bits,
        ENCHANTMENT
    );
    assert_eq!(
        card_type(Card::Spell(Spell::Permanent(Permanent::PrimevalTitan))).bits,
        CREATURE
    );
    assert_eq!(
        card_type(Card::Spell(Spell::NonPermanent(NonPermanent::Sorcery(Sorcery::Scapeshift))))
            .bits,
        SORCERY
    );
    assert_eq!(
        card_type(Card::Spell(Spell::NonPermanent(NonPermanent::Instant(
            Instant::SummonersPact
        ))))
        .bits,
        INSTANT
    );
}

#[test]
fn card_type_union_and_empty() {
    let a = card_type(Card::Land(Land::Forest));
    let b = card_type(Card::Spell(Spell::Permanent(Permanent::PrimevalTitan)));
    assert_eq!(a.union(b).bits, LAND | CREATURE);
    assert_eq!(CardType::empty().bits, 0);
    assert_eq!(a.bits(), LAND);
}

#[test]
fn count_type_bits_counts_each_flag_once() {
    assert_eq!(count_type_bits(0), 0);
    assert_eq!(count_type_bits(LAND | ARTIFACT | ENCHANTMENT | CREATURE), 4);
    assert_eq!(count_type_bits(LAND | ARTIFACT | ENCHANTMENT | CREATURE | SORCERY | INSTANT), 6);
}

#[test]
fn card_index_round_trips_over_the_whole_catalog() {
    for i in 0..CARD_COUNT {
        let card = card_from_index(i);
        assert_eq!(card_index(card), i);
    }
}

#[test]
fn card_index_is_injective() {
    let mut seen = vec![false; CARD_COUNT];
    for i in 0..CARD_COUNT {
        let ix = card_index(card_from_index(i));
        assert!(!seen[ix]);
        seen[ix] = true;
    }
}

#[test]
fn mana_value_of_primeval_titan() {
    let mv = Permanent::PrimevalTitan.mana_value();
    assert_eq!(
        mv,
        ManaValue { white: 0, blue: 0, black: 0, red: 0, green: 2, colorless: 0, generic: 4, x: 0 }
    );
}

#[test]
fn mana_value_dispatches_through_spell() {
    let sp = Spell::NonPermanent(NonPermanent::Sorcery(Sorcery::GreenSunsZenith));
    let mv = sp.mana_value();
    assert_eq!(mv.green, 1);
    assert_eq!(mv.generic, 0);
    assert_eq!(mv.x, 1);
}

#[test]
fn mana_value_of_summoners_pact_is_free() {
    let mv = Instant::SummonersPact.mana_value();
    assert_eq!(mv.green + mv.generic + mv.x, 0);
}

#[test]
fn mana_value_of_each_sorcery() {
    assert_eq!(Sorcery::Explore.mana_value().generic, 1);
    assert_eq!(Sorcery::Scapeshift.mana_value().green, 2);
    assert_eq!(Sorcery::Scapeshift.mana_value().generic, 2);
    let np = NonPermanent::Instant(Instant::SummonersPact);
    assert_eq!(np.mana_value().x, 0);
}
