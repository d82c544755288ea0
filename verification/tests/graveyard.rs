use amulet_sim::cards::{Card, Instant, Land, NonPermanent, Permanent, Sorcery, Spell};
use amulet_sim::game_state::Graveyard;

#[test]
fn iter_lists_lands_then_spells_in_zone_order() {
    let g = Graveyard {
        lands: vec![Land::Forest, Land::Vesuva],
        spells: vec![Spell::Permanent(Permanent::AmuletOfVigor)],
    };
    assert_eq!(
        g.iter(),
        vec![
            Card::Land(Land::Forest),
            Card::Land(Land::Vesuva),
            Card::Spell(Spell::Permanent(Permanent::AmuletOfVigor)),
        ]
    );
}

#[test]
fn empty_graveyard_has_no_delirium() {
    let g = Graveyard { lands: vec![], spells: vec![] };
    assert!(g.iter().is_empty());
    assert!(!g.has_delirium());
}

#[test]
fn three_distinct_types_are_not_delirium() {
    let g = Graveyard {
        lands: vec![Land::Forest],
        spells: vec![
            Spell::Permanent(Permanent::AmuletOfVigor),
            Spell::Permanent(Permanent::PrimevalTitan),
        ],
    };
    assert!(!g.has_delirium());
}

#[test]
fn four_distinct_types_are_delirium() {
    let g = Graveyard {
        lands: vec![Land::Forest],
        spells: vec![
            Spell::Permanent(Permanent::AmuletOfVigor),
            Spell::Permanent(Permanent::PrimevalTitan),
            Spell::NonPermanent(NonPermanent::Sorcery(Sorcery::Explore)),
        ],
    };
    assert!(g.has_delirium());
}

#[test]
fn urzas_saga_alone_counts_two_types() {
    // One land that is also an enchantment, plus a creature and an
    // instant: four distinct type bits from three cards.
    let g = Graveyard {
        lands: vec![Land::UrzasSaga],
        spells: vec![
            Spell::Permanent(Permanent::PrimevalTitan),
            Spell::NonPermanent(NonPermanent::Instant(Instant::SummonersPact)),
        ],
    };
    assert!(g.has_delirium());
}

#[test]
fn delirium_is_monotone_under_additions() {
    let mut g = Graveyard {
        lands: vec![Land::UrzasSaga],
        spells: vec![
            Spell::Permanent(Permanent::PrimevalTitan),
            Spell::NonPermanent(NonPermanent::Instant(Instant::SummonersPact)),
        ],
    };
    assert!(g.has_delirium());
    g.spells.push(Spell::NonPermanent(NonPermanent::Sorcery(Sorcery::Scapeshift)));
    assert!(g.has_delirium());
    g.lands.push(Land::Forest);
    assert!(g.has_delirium());
}

#[test]
fn duplicate_types_do_not_add_up_to_delirium() {
    let g = Graveyard {
        lands: vec![Land::Forest, Land::Vesuva, Land::GruulTurf, Land::LotusField],
        spells: vec![],
    };
    assert!(!g.has_delirium());
}
