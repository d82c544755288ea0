//! The game-state data model: players, zones, stack, object identity, and
//! the seeded library. Each piece has a mathematical model; contracts speak
//! of the models, which leave out only the random generator's hidden state.

use vstd::prelude::*;
use vstd::pervasive::VecAdditionalExecFns;

use crate::cards::{
    card_from_index, card_index, card_tag, card_type, card_type_bits, count_type_bits, Card,
    Land, Permanent, Spell, CARD_COUNT,
};
use crate::rng::{rng_below, rng_from_seed};
use crate::seqs::{
    lemma_entry_le_sum, lemma_remove_last_match_at, lemma_sum_counts_update, lemma_sum_take_le,
    lemma_sum_take_succ, remove_last_match, sum_counts,
};

verus! {

// ---------------------------------------------------------------------------
// Object identity
// ---------------------------------------------------------------------------

/// The identity of a battlefield object: minted strictly increasing by the
/// owning game state and never reused, even after a revert.
#[derive(Debug, Clone, Copy, PartialEq, Eq, Hash, Structural)]
pub struct GameObjectId(pub usize);

/// Whether a permanent is available or already used this turn.
#[derive(Debug, Clone, Copy, PartialEq, Eq, Structural)]
pub enum TapState {
    Tapped,
    Untapped,
}

/// A battlefield occupant: a permanent identity together with its tap state.
#[derive(Debug, Clone, Copy, PartialEq, Eq)]
pub struct GameObject<A> {
    pub permanent: A,
    pub tap_state: TapState,
}

/// One battlefield entry: an object under its identity.
#[derive(Debug, Clone, Copy, PartialEq, Eq)]
pub struct BattlefieldSlot<A> {
    pub id: GameObjectId,
    pub object: GameObject<A>,
}

// ---------------------------------------------------------------------------
// Zones
// ---------------------------------------------------------------------------

/// The graveyard: order-preserving sequences of lands and of spells.
#[derive(Debug, Clone, PartialEq)]
pub struct Graveyard {
    pub spells: Vec<Spell>,
    pub lands: Vec<Land>,
}

/// The hand: order-preserving sequences of lands and of spells.
#[derive(Debug, Clone, PartialEq)]
pub struct Hand {
    pub lands: Vec<Land>,
    pub spells: Vec<Spell>,
}

/// The battlefield: land and non-land objects keyed by identity, plus the
/// number of land plays remaining this turn.
#[derive(Debug, Clone, PartialEq)]
pub struct Battlefield {
    pub lands: Vec<BattlefieldSlot<Land>>,
    pub non_lands: Vec<BattlefieldSlot<Permanent>>,
    pub land_plays: usize,
}

/// The per-color mana pool.
#[derive(Debug, Clone, PartialEq, Eq, Structural)]
pub struct ManaPool {
    pub white: usize,
    pub blue: usize,
    pub black: usize,
    pub red: usize,
    pub green: usize,
    pub colorless: usize,
}

// ---------------------------------------------------------------------------
// Stack
// ---------------------------------------------------------------------------

/// A pending triggered ability.
#[derive(Debug, Clone, Copy, PartialEq)]
pub enum Trigger {
    Enters(Card),
    AmuletUntap(GameObjectId),
}

/// The identity of an object on the stack.
#[derive(Debug, Clone, Copy, PartialEq, Eq, Hash, Structural)]
pub struct StackObjectId(pub usize);

/// What an activated ability points at.
#[derive(Debug, Clone, Copy, PartialEq)]
pub enum Target {
    Object(GameObjectId),
    Spell(StackObjectId),
}

/// A pending effect awaiting resolution.
#[derive(Debug, Clone, Copy, PartialEq)]
pub enum StackObject {
    Spell(Spell),
    Trigger(Trigger),
    ActivatedAbility { source: GameObjectId, target: Option<Target> },
}

/// The ordered list of pending effects; last in, first resolved.
#[derive(Debug, Clone, PartialEq)]
pub struct Stack {
    pub objects: Vec<StackObject>,
}

// ---------------------------------------------------------------------------
// Library
// ---------------------------------------------------------------------------

/// The undrawn cards: a count per card identity, the total, and one seeded
/// pseudo-random source, so that equal seeds replay equal draw sequences.
#[derive(Debug, Clone)]
pub struct Library {
    pub cards: Vec<usize>,
    pub size: usize,
    pub rng: rand::rngs::StdRng,
}

/// What a library is mathematically: its counts and their total. The
/// generator's hidden state is deliberately absent — reverting a draw
/// restores the counts, not the stream.
#[verifier::ext_equal]
pub struct LibraryModel {
    pub cards: Seq<usize>,
    pub size: nat,
}

impl LibraryModel {
    /// A count table of the right width whose total matches `size`.
    pub open spec fn wf(self) -> bool {
        &&& self.cards.len() == CARD_COUNT
        &&& self.size == sum_counts(self.cards)
    }
}

/// The model after one copy of `c` is removed; meaningful when its count
/// is positive.
pub open spec fn lib_remove(m: LibraryModel, c: Card) -> LibraryModel {
    LibraryModel {
        cards: m.cards.update(card_tag(c), (m.cards[card_tag(c)] - 1) as usize),
        size: (m.size - 1) as nat,
    }
}

/// The model after one copy of `c` is removed if any is present, and
/// unchanged otherwise: the saturating removal a search uses.
pub open spec fn lib_remove_sat(m: LibraryModel, c: Card) -> LibraryModel {
    if m.cards[card_tag(c)] > 0 {
        lib_remove(m, c)
    } else {
        m
    }
}

/// The model after one copy of `c` is added.
pub open spec fn lib_add(m: LibraryModel, c: Card) -> LibraryModel {
    LibraryModel {
        cards: m.cards.update(card_tag(c), (m.cards[card_tag(c)] + 1) as usize),
        size: (m.size + 1) as nat,
    }
}

/// How many cards of `s` carry the dense tag `i`.
pub open spec fn occurrences(s: Seq<Card>, i: int) -> int
    decreases s.len(),
{
    if s.len() == 0 {
        0
    } else {
        occurrences(s.drop_last(), i) + if card_tag(s.last()) == i {
            1int
        } else {
            0
        }
    }
}

impl Library {
    /// The library's mathematical content.
    pub open spec fn model(self) -> LibraryModel {
        LibraryModel { cards: self.cards@, size: self.size as nat }
    }

    /// The library's invariant: see [`LibraryModel::wf`].
    pub open spec fn wf(self) -> bool {
        self.model().wf()
    }

    /// Builds a library holding the given cards, with a generator seeded
    /// from `seed` so that the draw sequence is reproducible.
    pub fn new(cards: Vec<Card>, seed: u64) -> (lib: Library)
        ensures
            lib.wf(),
            lib.size == cards@.len(),
            forall|i: int| 0 <= i < CARD_COUNT ==> lib.cards@[i] == occurrences(cards@, i),
    {
        let size = cards.len();
        let mut counts: Vec<usize> = Vec::new();
        let mut j: usize = 0;
        while j < CARD_COUNT
            invariant
                j <= CARD_COUNT,
                counts@.len() == j,
                forall|i: int| 0 <= i < j ==> counts@[i] == 0,
                sum_counts(counts@) == 0,
            decreases CARD_COUNT - j,
        {
            let ghost before = counts@;
            counts.push(0);
            proof {
                assert(counts@.drop_last() =~= before);
            }
            j = j + 1;
        }
        let mut k: usize = 0;
        while k < cards.len()
            invariant
                k <= cards@.len(),
                counts@.len() == CARD_COUNT,
                sum_counts(counts@) == k,
                forall|i: int| 0 <= i < CARD_COUNT ==> counts@[i] == occurrences(cards@.take(k as int), i),
                forall|i: int| 0 <= i < CARD_COUNT ==> counts@[i] <= k,
            decreases cards@.len() - k,
        {
            let ix = card_index(cards[k]);
            let c = counts[ix];
            proof {
                lemma_sum_counts_update(counts@, ix as int, (c + 1) as usize);
                assert forall|i: int| 0 <= i < CARD_COUNT implies #[trigger] occurrences(
                    cards@.take(k as int + 1),
                    i,
                ) == occurrences(cards@.take(k as int), i) + if card_tag(cards@[k as int]) == i {
                    1int
                } else {
                    0
                } by {
                    assert(cards@.take(k as int + 1).drop_last() =~= cards@.take(k as int));
                }
            }
            counts.set(ix, c + 1);
            k = k + 1;
        }
        proof {
            assert(cards@.take(cards@.len() as int) =~= cards@);
        }
        Library { cards: counts, size, rng: rng_from_seed(seed) }
    }

    /// The number of cards remaining.
    pub fn len(&self) -> (n: usize)
        ensures
            n == self.size,
    {
        self.size
    }

    /// Whether no card remains.
    pub fn is_empty(&self) -> (b: bool)
        ensures
            b == (self.size == 0),
    {
        self.size == 0
    }

    /// Draws one card, each remaining copy equally likely, and removes it.
    /// An empty library yields no card and no change: a legal terminal
    /// condition, not an error.
    pub fn draw_random_card(&mut self) -> (r: Option<Card>)
        requires
            old(self).wf(),
        ensures
            final(self).wf(),
            old(self).size == 0 ==> r is None && final(self).model() == old(self).model(),
            old(self).size > 0 ==> (r matches Some(c)
                && old(self).cards@[card_tag(c)] > 0
                && final(self).model() == lib_remove(old(self).model(), c)),
    {
        if self.size == 0 {
            return None;
        }
        let r = rng_below(&mut self.rng, self.size);
        let k = select_weighted(&self.cards, r);
        let card = card_from_index(k);
        let c = self.cards[k];
        proof {
            lemma_sum_take_succ(self.cards@, k as int);
            lemma_sum_counts_update(self.cards@, k as int, (c - 1) as usize);
        }
        self.cards.set(k, c - 1);
        self.size = self.size - 1;
        Some(card)
    }

    /// Takes one copy of `card` out if one is present, and otherwise
    /// changes nothing: the saturating removal a library search uses.
    pub fn remove_card_saturating(&mut self, card: Card)
        requires
            old(self).wf(),
        ensures
            final(self).wf(),
            final(self).model() == lib_remove_sat(old(self).model(), card),
    {
        let ix = card_index(card);
        let c = self.cards[ix];
        if c > 0 {
            proof {
                lemma_entry_le_sum(self.cards@, ix as int);
                lemma_sum_counts_update(self.cards@, ix as int, (c - 1) as usize);
            }
            self.cards.set(ix, c - 1);
            self.size = self.size - 1;
        }
    }

    /// Puts one copy of `card` back: the exact inverse of a single draw.
    pub fn add_card(&mut self, card: Card)
        requires
            old(self).wf(),
            old(self).size < usize::MAX,
        ensures
            final(self).wf(),
            final(self).model() == lib_add(old(self).model(), card),
    {
        let ix = card_index(card);
        let c = self.cards[ix];
        proof {
            lemma_entry_le_sum(self.cards@, ix as int);
            lemma_sum_counts_update(self.cards@, ix as int, (c + 1) as usize);
        }
        self.cards.set(ix, c + 1);
        self.size = self.size + 1;
    }
}

/// Picks the entry of the count table that the `r`-th individual card falls
/// in, counting card by card in tag order: the unique `k` whose cumulative
/// count range contains `r`. This is the whole of the weighted choice; the
/// random source only supplies `r`.
pub fn select_weighted(counts: &Vec<usize>, r: usize) -> (k: usize)
    requires
        r < sum_counts(counts@),
        sum_counts(counts@) <= usize::MAX,
    ensures
        k < counts@.len(),
        counts@[k as int] > 0,
        sum_counts(counts@.take(k as int)) <= r < sum_counts(counts@.take(k as int + 1)),
{
    let mut k: usize = 0;
    let mut acc: usize = 0;
    while k < counts.len()
        invariant
            k <= counts@.len(),
            acc == sum_counts(counts@.take(k as int)),
            acc <= r,
            r < sum_counts(counts@),
            sum_counts(counts@) <= usize::MAX,
        decreases counts@.len() - k,
    {
        let c = counts[k];
        proof {
            lemma_sum_take_succ(counts@, k as int);
            lemma_sum_take_le(counts@, k as int + 1);
        }
        if r < acc + c {
            return k;
        }
        acc = acc + c;
        k = k + 1;
    }
    proof {
        assert(counts@.take(counts@.len() as int) =~= counts@);
    }
    0
}

// ---------------------------------------------------------------------------
// Zone models
// ---------------------------------------------------------------------------

/// What a hand is mathematically.
#[verifier::ext_equal]
pub struct HandModel {
    pub lands: Seq<Land>,
    pub spells: Seq<Spell>,
}

/// What a graveyard is mathematically.
#[verifier::ext_equal]
pub struct GraveyardModel {
    pub spells: Seq<Spell>,
    pub lands: Seq<Land>,
}

/// What a battlefield is mathematically.
#[verifier::ext_equal]
pub struct BattlefieldModel {
    pub lands: Seq<BattlefieldSlot<Land>>,
    pub non_lands: Seq<BattlefieldSlot<Permanent>>,
    pub land_plays: nat,
}

impl Hand {
    /// The hand's mathematical content.
    pub open spec fn model(self) -> HandModel {
        HandModel { lands: self.lands@, spells: self.spells@ }
    }
}

impl Graveyard {
    /// The graveyard's mathematical content.
    pub open spec fn model(self) -> GraveyardModel {
        GraveyardModel { spells: self.spells@, lands: self.lands@ }
    }
}

impl Battlefield {
    /// The battlefield's mathematical content.
    pub open spec fn model(self) -> BattlefieldModel {
        BattlefieldModel {
            lands: self.lands@,
            non_lands: self.non_lands@,
            land_plays: self.land_plays as nat,
        }
    }
}

/// No identity occurs twice on a battlefield, within or across the two
/// object families.
pub open spec fn bf_ids_unique(b: BattlefieldModel) -> bool {
    &&& forall|i: int, j: int|
        0 <= i < j < b.lands.len() ==> b.lands[i].id != b.lands[j].id
    &&& forall|i: int, j: int|
        0 <= i < j < b.non_lands.len() ==> b.non_lands[i].id != b.non_lands[j].id
    &&& forall|i: int, j: int|
        0 <= i < b.lands.len() && 0 <= j < b.non_lands.len() ==> b.lands[i].id
            != b.non_lands[j].id
}

/// Every identity on the battlefield was minted before `next`.
pub open spec fn bf_ids_below(b: BattlefieldModel, next: nat) -> bool {
    &&& forall|i: int| 0 <= i < b.lands.len() ==> (#[trigger] b.lands[i].id).0 < next
    &&& forall|i: int| 0 <= i < b.non_lands.len() ==> (#[trigger] b.non_lands[i].id).0 < next
}

// ---------------------------------------------------------------------------
// Players and the whole state
// ---------------------------------------------------------------------------

/// Which player a flag refers to.
#[derive(Debug, Clone, Copy, PartialEq, Eq, Structural)]
pub enum PlayerId {
    Active,
    NonActive,
}

/// One player's resources and zones.
#[derive(Debug, Clone)]
pub struct Player {
    pub life_total: isize,
    pub library: Library,
    pub hand: Hand,
    pub battlefield: Battlefield,
    pub graveyard: Graveyard,
    pub mana_pool: ManaPool,
}

/// What a player is mathematically.
#[verifier::ext_equal]
pub struct PlayerModel {
    pub life_total: int,
    pub library: LibraryModel,
    pub hand: HandModel,
    pub battlefield: BattlefieldModel,
    pub graveyard: GraveyardModel,
    pub mana_pool: ManaPool,
}

impl Player {
    /// The player's mathematical content.
    pub open spec fn model(self) -> PlayerModel {
        PlayerModel {
            life_total: self.life_total as int,
            library: self.library.model(),
            hand: self.hand.model(),
            battlefield: self.battlefield.model(),
            graveyard: self.graveyard.model(),
            mana_pool: self.mana_pool,
        }
    }
}

/// A player whose zones respect their invariants.
pub open spec fn player_wf(p: PlayerModel, next_id: nat) -> bool {
    &&& p.library.wf()
    &&& bf_ids_unique(p.battlefield)
    &&& bf_ids_below(p.battlefield, next_id)
}

/// The whole game: both players, the stack, the priority flag, and the
/// monotonic identity counter that mints every battlefield object's id.
#[derive(Debug, Clone)]
pub struct GameState {
    pub active_player: Player,
    pub non_active_player: Option<Player>,
    pub stack: Stack,
    pub priority: PlayerId,
    pub next_id: usize,
}

/// What a game state is mathematically: everything but the random stream.
#[verifier::ext_equal]
pub struct StateModel {
    pub active_player: PlayerModel,
    pub non_active_player: Option<PlayerModel>,
    pub stack: Seq<StackObject>,
    pub priority: PlayerId,
    pub next_id: nat,
}

impl GameState {
    /// The state's mathematical content.
    pub open spec fn model(self) -> StateModel {
        StateModel {
            active_player: self.active_player.model(),
            non_active_player: match self.non_active_player {
                Some(p) => Some(p.model()),
                None => None,
            },
            stack: self.stack.objects@,
            priority: self.priority,
            next_id: self.next_id as nat,
        }
    }

    /// The state's invariant: see [`state_wf`].
    pub open spec fn wf(self) -> bool {
        state_wf(self.model())
    }

    /// Mints a fresh object identity. The counter only ever grows, so an
    /// identity is never handed out twice, even across undone branches.
    pub fn next_game_object_id(&mut self) -> (id: GameObjectId)
        requires
            old(self).next_id < usize::MAX,
        ensures
            id.0 == old(self).next_id,
            final(self).next_id == old(self).next_id + 1,
            final(self).model() == (StateModel {
                next_id: old(self).next_id as nat + 1,
                ..old(self).model()
            }),
    {
        let id = GameObjectId(self.next_id);
        self.next_id = self.next_id + 1;
        id
    }
}

/// The state invariant: both players' libraries balance, battlefield
/// identities are unique and below the mint counter, and the counter fits
/// the machine word it is stored in.
pub open spec fn state_wf(s: StateModel) -> bool {
    &&& player_wf(s.active_player, s.next_id)
    &&& (s.non_active_player matches Some(p) ==> player_wf(p, s.next_id))
    &&& s.next_id <= usize::MAX
}

// ---------------------------------------------------------------------------
// Graveyard queries
// ---------------------------------------------------------------------------

/// The graveyard's contents as one sequence of cards, lands first.
pub open spec fn graveyard_cards(g: GraveyardModel) -> Seq<Card> {
    g.lands.map_values(|l: Land| Card::Land(l)) + g.spells.map_values(|s: Spell| Card::Spell(s))
}

/// The bitwise union of the type bits of all cards of `s`.
pub open spec fn union_type_bits(s: Seq<Card>) -> u8
    decreases s.len(),
{
    if s.len() == 0 {
        0
    } else {
        union_type_bits(s.drop_last()) | card_type_bits(s.last())
    }
}

/// Delirium holds of a graveyard when at least four distinct card-type
/// bits occur among its cards.
pub open spec fn delirium(g: GraveyardModel) -> bool {
    type_bit_count_of(g) >= 4
}

/// The number of distinct card-type bits among a graveyard's cards.
pub open spec fn type_bit_count_of(g: GraveyardModel) -> int {
    crate::cards::type_bit_count(union_type_bits(graveyard_cards(g)))
}

impl Graveyard {
    /// Lists the cards in the graveyard, lands first, each in zone order.
    pub fn iter(&self) -> (r: Vec<Card>)
        ensures
            r@ == graveyard_cards(self.model()),
    {
        let mut out: Vec<Card> = Vec::new();
        let ghost land_cards = self.lands@.map_values(|l: Land| Card::Land(l));
        let ghost spell_cards = self.spells@.map_values(|s: Spell| Card::Spell(s));
        let mut i: usize = 0;
        while i < self.lands.len()
            invariant
                i <= self.lands@.len(),
                land_cards == self.lands@.map_values(|l: Land| Card::Land(l)),
                out@ == land_cards.take(i as int),
            decreases self.lands@.len() - i,
        {
            out.push(Card::Land(self.lands[i]));
            proof {
                assert(out@ =~= land_cards.take(i as int + 1));
            }
            i = i + 1;
        }
        proof {
            assert(land_cards.take(self.lands@.len() as int) =~= land_cards);
        }
        let mut j: usize = 0;
        while j < self.spells.len()
            invariant
                j <= self.spells@.len(),
                land_cards == self.lands@.map_values(|l: Land| Card::Land(l)),
                spell_cards == self.spells@.map_values(|s: Spell| Card::Spell(s)),
                out@ == land_cards + spell_cards.take(j as int),
            decreases self.spells@.len() - j,
        {
            out.push(Card::Spell(self.spells[j]));
            proof {
                assert(out@ =~= land_cards + spell_cards.take(j as int + 1));
            }
            j = j + 1;
        }
        proof {
            assert(out@ =~= land_cards + spell_cards);
        }
        out
    }

    /// Whether delirium is active: four or more distinct card types here.
    pub fn has_delirium(&self) -> (r: bool)
        ensures
            r == delirium(self.model()),
    {
        let cards = self.iter();
        let mut acc: u8 = 0;
        let mut i: usize = 0;
        while i < cards.len()
            invariant
                i <= cards@.len(),
                cards@ == graveyard_cards(self.model()),
                acc == union_type_bits(cards@.take(i as int)),
            decreases cards@.len() - i,
        {
            acc = acc | card_type(cards[i]).bits;
            proof {
                assert(cards@.take(i as int + 1).drop_last() =~= cards@.take(i as int));
            }
            i = i + 1;
        }
        proof {
            assert(cards@.take(cards@.len() as int) =~= cards@);
        }
        let n = count_type_bits(acc);
        n >= 4
    }
}

// ---------------------------------------------------------------------------
// Zone manipulation helpers for exact undo
// ---------------------------------------------------------------------------

/// Removes the last occurrence of `x` from `v`, reporting whether one was
/// found. Undo must remove the entry nearest the end, since applies append.
pub(crate) fn remove_last_land(v: &mut Vec<Land>, x: Land) -> (found: bool)
    ensures
        found == old(v)@.contains(x),
        found ==> final(v)@ == remove_last_match(old(v)@, x),
        !found ==> final(v)@ == old(v)@,
{
    let ghost orig = v@;
    let mut i: usize = v.len();
    while i > 0
        invariant
            old(v)@ == orig,
            i <= orig.len(),
            v@ == orig,
            forall|k: int| i <= k < orig.len() ==> orig[k] != x,
        decreases i,
    {
        i = i - 1;
        if v[i] == x {
            proof {
                assert(orig[i as int] == x);
                assert(orig.contains(x));
                lemma_remove_last_match_at(orig, x, i as int);
            }
            v.remove(i);
            return true;
        }
        proof {
            assert(orig[i as int] != x);
        }
    }
    assert(forall|k: int| 0 <= k < orig.len() ==> orig[k] != x);
    assert(!orig.contains(x));
    false
}

/// Removes the last occurrence of `x` from `v`, reporting whether one was
/// found. Undo must remove the entry nearest the end, since applies append.
pub(crate) fn remove_last_spell(v: &mut Vec<Spell>, x: Spell) -> (found: bool)
    ensures
        found == old(v)@.contains(x),
        found ==> final(v)@ == remove_last_match(old(v)@, x),
        !found ==> final(v)@ == old(v)@,
{
    let ghost orig = v@;
    let mut i: usize = v.len();
    while i > 0
        invariant
            old(v)@ == orig,
            i <= orig.len(),
            v@ == orig,
            forall|k: int| i <= k < orig.len() ==> orig[k] != x,
        decreases i,
    {
        i = i - 1;
        if v[i] == x {
            proof {
                assert(orig[i as int] == x);
                assert(orig.contains(x));
                lemma_remove_last_match_at(orig, x, i as int);
            }
            v.remove(i);
            return true;
        }
        proof {
            assert(orig[i as int] != x);
        }
    }
    assert(forall|k: int| 0 <= k < orig.len() ==> orig[k] != x);
    assert(!orig.contains(x));
    false
}

/// Removes the slot holding `id`, handing back its object, or changes
/// nothing when no slot holds `id`.
pub(crate) fn remove_land_slot(v: &mut Vec<BattlefieldSlot<Land>>, id: GameObjectId) -> (r: Option<
    GameObject<Land>,
>)
    ensures
        match r {
            Some(obj) => exists|j: int|
                0 <= j < old(v)@.len() && old(v)@[j].id == id && obj == old(v)@[j].object
                    && final(v)@ == old(v)@.remove(j),
            None => final(v)@ == old(v)@ && forall|k: int|
                0 <= k < old(v)@.len() ==> old(v)@[k].id != id,
        },
{
    let ghost orig = v@;
    let mut i: usize = 0;
    while i < v.len()
        invariant
            old(v)@ == orig,
            i <= orig.len(),
            v@ == orig,
            forall|k: int| 0 <= k < i ==> orig[k].id != id,
        decreases orig.len() - i,
    {
        if v[i].id == id {
            let slot = v.remove(i);
            proof {
                assert(orig[i as int].id == id && slot.object == orig[i as int].object && v@
                    == orig.remove(i as int));
            }
            return Some(slot.object);
        }
        i = i + 1;
    }
    None
}

/// Removes the slot holding `id`, handing back its object, or changes
/// nothing when no slot holds `id`.
pub(crate) fn remove_non_land_slot(
    v: &mut Vec<BattlefieldSlot<Permanent>>,
    id: GameObjectId,
) -> (r: Option<GameObject<Permanent>>)
    ensures
        match r {
            Some(obj) => exists|j: int|
                0 <= j < old(v)@.len() && old(v)@[j].id == id && obj == old(v)@[j].object
                    && final(v)@ == old(v)@.remove(j),
            None => final(v)@ == old(v)@ && forall|k: int|
                0 <= k < old(v)@.len() ==> old(v)@[k].id != id,
        },
{
    let ghost orig = v@;
    let mut i: usize = 0;
    while i < v.len()
        invariant
            old(v)@ == orig,
            i <= orig.len(),
            v@ == orig,
            forall|k: int| 0 <= k < i ==> orig[k].id != id,
        decreases orig.len() - i,
    {
        if v[i].id == id {
            let slot = v.remove(i);
            proof {
                assert(orig[i as int].id == id && slot.object == orig[i as int].object && v@
                    == orig.remove(i as int));
            }
            return Some(slot.object);
        }
        i = i + 1;
    }
    None
}

} // verus!
