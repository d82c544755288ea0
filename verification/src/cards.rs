//! The card catalog: the closed set of cards this deck archetype uses,
//! their type bitmasks and their mana costs. Pure, total lookup tables.

use vstd::prelude::*;

verus! {

/// Bit for the land card type.
pub const LAND: u8 = 0x01;

/// Bit for the artifact card type.
pub const ARTIFACT: u8 = 0x02;

/// Bit for the enchantment card type.
pub const ENCHANTMENT: u8 = 0x04;

/// Bit for the creature card type.
pub const CREATURE: u8 = 0x08;

/// Bit for the sorcery card type.
pub const SORCERY: u8 = 0x10;

/// Bit for the instant card type.
pub const INSTANT: u8 = 0x20;

/// A set of card types, as a bitmask over the six type bits.
#[derive(Debug, Clone, Copy, PartialEq, Eq, Structural)]
pub struct CardType {
    pub bits: u8,
}

impl CardType {
    /// The empty set of card types.
    pub fn empty() -> (t: CardType)
        ensures
            t.bits == 0,
    {
        CardType { bits: 0 }
    }

    /// The union of two type sets.
    pub fn union(self, other: CardType) -> (t: CardType)
        ensures
            t.bits == (self.bits | other.bits),
    {
        CardType { bits: self.bits | other.bits }
    }

    /// The raw bitmask.
    pub fn bits(self) -> (b: u8)
        ensures
            b == self.bits,
    {
        self.bits
    }
}

/// How many distinct type bits are set in `bits`.
pub open spec fn type_bit_count(bits: u8) -> int {
    (if bits & LAND != 0 { 1int } else { 0 }) + (if bits & ARTIFACT != 0 { 1int } else { 0 })
        + (if bits & ENCHANTMENT != 0 { 1int } else { 0 }) + (if bits & CREATURE != 0 {
        1int
    } else {
        0
    }) + (if bits & SORCERY != 0 { 1int } else { 0 }) + (if bits & INSTANT != 0 { 1int } else { 0 })
}

/// Counts the distinct type bits set in `bits`.
pub fn count_type_bits(bits: u8) -> (n: u8)
    ensures
        n == type_bit_count(bits),
{
    let mut n: u8 = 0;
    if bits & LAND != 0 {
        n = n + 1;
    }
    if bits & ARTIFACT != 0 {
        n = n + 1;
    }
    if bits & ENCHANTMENT != 0 {
        n = n + 1;
    }
    if bits & CREATURE != 0 {
        n = n + 1;
    }
    if bits & SORCERY != 0 {
        n = n + 1;
    }
    if bits & INSTANT != 0 {
        n = n + 1;
    }
    n
}

/// A card's mana cost, broken into per-color pips, generic and variable parts.
#[derive(Debug, Clone, Copy, PartialEq, Eq, Structural)]
pub struct ManaValue {
    pub white: u8,
    pub blue: u8,
    pub black: u8,
    pub red: u8,
    pub green: u8,
    pub colorless: u8,
    pub generic: u8,
    pub x: u8,
}

/// A card identity: a land or a spell.
#[derive(Debug, Clone, Copy, PartialEq, Eq, Structural)]
pub enum Card {
    Land(Land),
    Spell(Spell),
}

/// A non-land card: a permanent spell or a non-permanent spell.
#[derive(Debug, Clone, Copy, PartialEq, Eq, Structural)]
pub enum Spell {
    Permanent(Permanent),
    NonPermanent(NonPermanent),
}

/// A non-land permanent card.
#[derive(Debug, Clone, Copy, PartialEq, Eq, Structural)]
pub enum Permanent {
    AmuletOfVigor,
    Spelunking,
    AftermathAnalyst,
    ArborealGrazer,
    CultivatorColossus,
    PrimevalTitan,
}

/// A spell that never becomes a permanent.
#[derive(Debug, Clone, Copy, PartialEq, Eq, Structural)]
pub enum NonPermanent {
    Sorcery(Sorcery),
    Instant(Instant),
}

/// A sorcery card.
#[derive(Debug, Clone, Copy, PartialEq, Eq, Structural)]
pub enum Sorcery {
    Explore,
    GreenSunsZenith,
    Scapeshift,
}

/// An instant card.
#[derive(Debug, Clone, Copy, PartialEq, Eq, Structural)]
pub enum Instant {
    SummonersPact,
}

/// A land card.
#[derive(Debug, Clone, Copy, PartialEq, Eq, Structural)]
pub enum Land {
    BoseijuWhoEndures,
    CrumblingVestige,
    EchoingDeeps,
    Forest,
    GruulTurf,
    HanweirBattlements,
    LotusField,
    Mirrorpool,
    OtawaraSoaringCity,
    ShiftingWoodland,
    SimicGrowthChamber,
    TheMycosynthGardens,
    TolariaWest,
    UrzasCave,
    UrzasSaga,
    Vesuva,
}

/// How many distinct card identities exist.
pub const CARD_COUNT: usize = 26;

/// The dense tag of a land, in declaration order.
pub open spec fn land_tag(land: Land) -> int {
    match land {
        Land::BoseijuWhoEndures => 0,
        Land::CrumblingVestige => 1,
        Land::EchoingDeeps => 2,
        Land::Forest => 3,
        Land::GruulTurf => 4,
        Land::HanweirBattlements => 5,
        Land::LotusField => 6,
        Land::Mirrorpool => 7,
        Land::OtawaraSoaringCity => 8,
        Land::ShiftingWoodland => 9,
        Land::SimicGrowthChamber => 10,
        Land::TheMycosynthGardens => 11,
        Land::TolariaWest => 12,
        Land::UrzasCave => 13,
        Land::UrzasSaga => 14,
        Land::Vesuva => 15,
    }
}

/// The dense tag of a card: lands first, then permanents, sorceries, the instant.
pub open spec fn card_tag(card: Card) -> int {
    match card {
        Card::Land(land) => land_tag(land),
        Card::Spell(Spell::Permanent(p)) => match p {
            Permanent::AmuletOfVigor => 16,
            Permanent::Spelunking => 17,
            Permanent::AftermathAnalyst => 18,
            Permanent::ArborealGrazer => 19,
            Permanent::CultivatorColossus => 20,
            Permanent::PrimevalTitan => 21,
        },
        Card::Spell(Spell::NonPermanent(NonPermanent::Sorcery(s))) => match s {
            Sorcery::Explore => 22,
            Sorcery::GreenSunsZenith => 23,
            Sorcery::Scapeshift => 24,
        },
        Card::Spell(Spell::NonPermanent(NonPermanent::Instant(Instant::SummonersPact))) => 25,
    }
}

/// Every card's tag is a valid index into a table of `CARD_COUNT` entries.
pub proof fn lemma_card_tag_bounds(card: Card)
    ensures
        0 <= card_tag(card) < CARD_COUNT,
{
}

/// Distinct cards have distinct tags.
pub proof fn lemma_card_tag_injective(c1: Card, c2: Card)
    requires
        card_tag(c1) == card_tag(c2),
    ensures
        c1 == c2,
{
}

/// Computes the dense tag of a card.
pub fn card_index(card: Card) -> (i: usize)
    ensures
        i == card_tag(card),
        i < CARD_COUNT,
{
    match card {
        Card::Land(land) => match land {
            Land::BoseijuWhoEndures => 0,
            Land::CrumblingVestige => 1,
            Land::EchoingDeeps => 2,
            Land::Forest => 3,
            Land::GruulTurf => 4,
            Land::HanweirBattlements => 5,
            Land::LotusField => 6,
            Land::Mirrorpool => 7,
            Land::OtawaraSoaringCity => 8,
            Land::ShiftingWoodland => 9,
            Land::SimicGrowthChamber => 10,
            Land::TheMycosynthGardens => 11,
            Land::TolariaWest => 12,
            Land::UrzasCave => 13,
            Land::UrzasSaga => 14,
            Land::Vesuva => 15,
        },
        Card::Spell(Spell::Permanent(p)) => match p {
            Permanent::AmuletOfVigor => 16,
            Permanent::Spelunking => 17,
            Permanent::AftermathAnalyst => 18,
            Permanent::ArborealGrazer => 19,
            Permanent::CultivatorColossus => 20,
            Permanent::PrimevalTitan => 21,
        },
        Card::Spell(Spell::NonPermanent(NonPermanent::Sorcery(s))) => match s {
            Sorcery::Explore => 22,
            Sorcery::GreenSunsZenith => 23,
            Sorcery::Scapeshift => 24,
        },
        Card::Spell(Spell::NonPermanent(NonPermanent::Instant(Instant::SummonersPact))) => 25,
    }
}

/// Recovers the card with the given dense tag.
pub fn card_from_index(i: usize) -> (card: Card)
    requires
        i < CARD_COUNT,
    ensures
        card_tag(card) == i,
{
    if i == 0 {
        Card::Land(Land::BoseijuWhoEndures)
    } else if i == 1 {
        Card::Land(Land::CrumblingVestige)
    } else if i == 2 {
        Card::Land(Land::EchoingDeeps)
    } else if i == 3 {
        Card::Land(Land::Forest)
    } else if i == 4 {
        Card::Land(Land::GruulTurf)
    } else if i == 5 {
        Card::Land(Land::HanweirBattlements)
    } else if i == 6 {
        Card::Land(Land::LotusField)
    } else if i == 7 {
        Card::Land(Land::Mirrorpool)
    } else if i == 8 {
        Card::Land(Land::OtawaraSoaringCity)
    } else if i == 9 {
        Card::Land(Land::ShiftingWoodland)
    } else if i == 10 {
        Card::Land(Land::SimicGrowthChamber)
    } else if i == 11 {
        Card::Land(Land::TheMycosynthGardens)
    } else if i == 12 {
        Card::Land(Land::TolariaWest)
    } else if i == 13 {
        Card::Land(Land::UrzasCave)
    } else if i == 14 {
        Card::Land(Land::UrzasSaga)
    } else if i == 15 {
        Card::Land(Land::Vesuva)
    } else if i == 16 {
        Card::Spell(Spell::Permanent(Permanent::AmuletOfVigor))
    } else if i == 17 {
        Card::Spell(Spell::Permanent(Permanent::Spelunking))
    } else if i == 18 {
        Card::Spell(Spell::Permanent(Permanent::AftermathAnalyst))
    } else if i == 19 {
        Card::Spell(Spell::Permanent(Permanent::ArborealGrazer))
    } else if i == 20 {
        Card::Spell(Spell::Permanent(Permanent::CultivatorColossus))
    } else if i == 21 {
        Card::Spell(Spell::Permanent(Permanent::PrimevalTitan))
    } else if i == 22 {
        Card::Spell(Spell::NonPermanent(NonPermanent::Sorcery(Sorcery::Explore)))
    } else if i == 23 {
        Card::Spell(Spell::NonPermanent(NonPermanent::Sorcery(Sorcery::GreenSunsZenith)))
    } else if i == 24 {
        Card::Spell(Spell::NonPermanent(NonPermanent::Sorcery(Sorcery::Scapeshift)))
    } else {
        Card::Spell(Spell::NonPermanent(NonPermanent::Instant(Instant::SummonersPact)))
    }
}

/// The type bitmask of a card. One land is also an enchantment; every
/// other card has exactly one type bit.
pub open spec fn card_type_bits(card: Card) -> u8 {
    match card {
        Card::Land(Land::UrzasSaga) => LAND | ENCHANTMENT,
        Card::Land(_) => LAND,
        Card::Spell(Spell::Permanent(Permanent::AmuletOfVigor)) => ARTIFACT,
        Card::Spell(Spell::Permanent(Permanent::Spelunking)) => ENCHANTMENT,
        Card::Spell(Spell::Permanent(_)) => CREATURE,
        Card::Spell(Spell::NonPermanent(NonPermanent::Sorcery(_))) => SORCERY,
        Card::Spell(Spell::NonPermanent(NonPermanent::Instant(_))) => INSTANT,
    }
}

/// Looks up the type bitmask of a card: total and pure.
pub fn card_type(card: Card) -> (t: CardType)
    ensures
        t.bits == card_type_bits(card),
{
    match card {
        Card::Land(land) => match land {
            Land::UrzasSaga => CardType { bits: LAND | ENCHANTMENT },
            _ => CardType { bits: LAND },
        },
        Card::Spell(spell) => match spell {
            Spell::Permanent(permanent) => match permanent {
                Permanent::AmuletOfVigor => CardType { bits: ARTIFACT },
                Permanent::Spelunking => CardType { bits: ENCHANTMENT },
                Permanent::AftermathAnalyst
                | Permanent::ArborealGrazer
                | Permanent::CultivatorColossus
                | Permanent::PrimevalTitan => CardType { bits: CREATURE },
            },
            Spell::NonPermanent(non_permanent) => match non_permanent {
                NonPermanent::Sorcery(_) => CardType { bits: SORCERY },
                NonPermanent::Instant(_) => CardType { bits: INSTANT },
            },
        },
    }
}

/// A card with a defined mana cost.
pub trait HasManaValue {
    /// The cost this card's catalog entry assigns it.
    spec fn mana_value_spec(&self) -> ManaValue;

    /// Looks the cost up: total and pure.
    fn mana_value(&self) -> (r: ManaValue)
        ensures
            r == self.mana_value_spec(),
    ;
}

impl HasManaValue for Spell {
    open spec fn mana_value_spec(&self) -> ManaValue {
        match self {
            Spell::Permanent(permanent) => permanent.mana_value_spec(),
            Spell::NonPermanent(non_permanent) => non_permanent.mana_value_spec(),
        }
    }

    fn mana_value(&self) -> (r: ManaValue) {
        match self {
            Spell::Permanent(permanent) => permanent.mana_value(),
            Spell::NonPermanent(non_permanent) => non_permanent.mana_value(),
        }
    }
}

impl HasManaValue for Permanent {
    open spec fn mana_value_spec(&self) -> ManaValue {
        match self {
            Permanent::AmuletOfVigor => (ManaValue {
                white: 0,
                blue: 0,
                black: 0,
                red: 0,
                green: 0,
                colorless: 0,
                generic: 1,
                x: 0,
            }),
            Permanent::Spelunking => (ManaValue {
                white: 0,
                blue: 0,
                black: 0,
                red: 0,
                green: 1,
                colorless: 0,
                generic: 2,
                x: 0,
            }),
            Permanent::AftermathAnalyst => (ManaValue {
                white: 0,
                blue: 0,
                black: 0,
                red: 0,
                green: 1,
                colorless: 0,
                generic: 0,
                x: 0,
            }),
            Permanent::ArborealGrazer => (ManaValue {
                white: 0,
                blue: 0,
                black: 0,
                red: 0,
                green: 1,
                colorless: 0,
                generic: 0,
                x: 0,
            }),
            Permanent::CultivatorColossus => (ManaValue {
                white: 0,
                blue: 0,
                black: 0,
                red: 0,
                green: 3,
                colorless: 0,
                generic: 1,
                x: 0,
            }),
            Permanent::PrimevalTitan => (ManaValue {
                white: 0,
                blue: 0,
                black: 0,
                red: 0,
                green: 2,
                colorless: 0,
                generic: 4,
                x: 0,
            }),
        }
    }

    fn mana_value(&self) -> (r: ManaValue) {
        match self {
            Permanent::AmuletOfVigor => ManaValue {
                white: 0,
                blue: 0,
                black: 0,
                red: 0,
                green: 0,
                colorless: 0,
                generic: 1,
                x: 0,
            },
            Permanent::Spelunking => ManaValue {
                white: 0,
                blue: 0,
                black: 0,
                red: 0,
                green: 1,
                colorless: 0,
                generic: 2,
                x: 0,
            },
            Permanent::AftermathAnalyst => ManaValue {
                white: 0,
                blue: 0,
                black: 0,
                red: 0,
                green: 1,
                colorless: 0,
                generic: 0,
                x: 0,
            },
            Permanent::ArborealGrazer => ManaValue {
                white: 0,
                blue: 0,
                black: 0,
                red: 0,
                green: 1,
                colorless: 0,
                generic: 0,
                x: 0,
            },
            Permanent::CultivatorColossus => ManaValue {
                white: 0,
                blue: 0,
                black: 0,
                red: 0,
                green: 3,
                colorless: 0,
                generic: 1,
                x: 0,
            },
            Permanent::PrimevalTitan => ManaValue {
                white: 0,
                blue: 0,
                black: 0,
                red: 0,
                green: 2,
                colorless: 0,
                generic: 4,
                x: 0,
            },
        }
    }
}

impl HasManaValue for NonPermanent {
    open spec fn mana_value_spec(&self) -> ManaValue {
        match self {
            NonPermanent::Sorcery(sorcery) => sorcery.mana_value_spec(),
            NonPermanent::Instant(instant) => instant.mana_value_spec(),
        }
    }

    fn mana_value(&self) -> (r: ManaValue) {
        match self {
            NonPermanent::Sorcery(sorcery) => sorcery.mana_value(),
            NonPermanent::Instant(instant) => instant.mana_value(),
        }
    }
}

impl HasManaValue for Sorcery {
    open spec fn mana_value_spec(&self) -> ManaValue {
        match self {
            Sorcery::Explore => (ManaValue {
                white: 0,
                blue: 0,
                black: 0,
                red: 0,
                green: 1,
                colorless: 0,
                generic: 1,
                x: 0,
            }),
            Sorcery::GreenSunsZenith => (ManaValue {
                white: 0,
                blue: 0,
                black: 0,
                red: 0,
                green: 1,
                colorless: 0,
                generic: 0,
                x: 1,
            }),
            Sorcery::Scapeshift => (ManaValue {
                white: 0,
                blue: 0,
                black: 0,
                red: 0,
                green: 2,
                colorless: 0,
                generic: 2,
                x: 0,
            }),
        }
    }

    fn mana_value(&self) -> (r: ManaValue) {
        match self {
            Sorcery::Explore => ManaValue {
                white: 0,
                blue: 0,
                black: 0,
                red: 0,
                green: 1,
                colorless: 0,
                generic: 1,
                x: 0,
            },
            Sorcery::GreenSunsZenith => ManaValue {
                white: 0,
                blue: 0,
                black: 0,
                red: 0,
                green: 1,
                colorless: 0,
                generic: 0,
                x: 1,
            },
            Sorcery::Scapeshift => ManaValue {
                white: 0,
                blue: 0,
                black: 0,
                red: 0,
                green: 2,
                colorless: 0,
                generic: 2,
                x: 0,
            },
        }
    }
}

impl HasManaValue for Instant {
    open spec fn mana_value_spec(&self) -> ManaValue {
        match self {
            Instant::SummonersPact => (ManaValue {
                white: 0,
                blue: 0,
                black: 0,
                red: 0,
                green: 0,
                colorless: 0,
                generic: 0,
                x: 0,
            }),
        }
    }

    fn mana_value(&self) -> (r: ManaValue) {
        match self {
            Instant::SummonersPact => ManaValue {
                white: 0,
                blue: 0,
                black: 0,
                red: 0,
                green: 0,
                colorless: 0,
                generic: 0,
                x: 0,
            },
        }
    }
}

} // verus!
