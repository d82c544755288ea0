//! The action/result engine. Applying an action mutates the game state and
//! hands back a result holding exactly the information its revert needs to
//! restore the prior state. Every transition is pinned by a relation over
//! the state models; the only freedom left open is which cards the seeded
//! generator picks for a draw, and those the result records.

use vstd::prelude::*;
use vstd::pervasive::VecAdditionalExecFns;

use crate::cards::{card_tag, Card, Land, Spell};
use crate::game_state::{
    bf_ids_below, bf_ids_unique, lib_add, lib_remove, lib_remove_sat, remove_last_land,
    remove_last_spell, remove_land_slot, remove_non_land_slot, state_wf, BattlefieldModel,
    BattlefieldSlot, GameObject, GameObjectId, GameState, GraveyardModel, HandModel,
    LibraryModel, PlayerId, PlayerModel, StackObject, StateModel, TapState, Trigger,
};
use crate::seqs::{lemma_entry_le_sum, lemma_sum_counts_update, remove_last_match};

pub use crate::game_state::Target;

verus! {

// ---------------------------------------------------------------------------
// Actions and results
// ---------------------------------------------------------------------------

/// A primitive mutation of the game state.
#[derive(Debug, Clone, PartialEq)]
pub enum PrimitiveGameAction {
    DrawCards(usize),
    MillCards(usize),
    PlayLand(Land, TapState),
    IncreaseLandPlays(usize),
    SearchLibraryToHand(Vec<Card>),
    SearchLibraryToBattlefield(Vec<GameObject<Card>>),
    Trigger(Trigger),
}

/// An action the search driver can take: a primitive, a stack action, a
/// priority pass, or a sequence of primitives undone as one unit.
#[derive(Debug, Clone, PartialEq)]
pub enum GameAction {
    PassPriority,
    Primitive(PrimitiveGameAction),
    CastSpell(Spell),
    ActivateAbility { source: GameObjectId, target: Option<Target> },
    Sequence(Vec<PrimitiveGameAction>),
}

/// The undo record of one primitive action.
#[derive(Debug, Clone, PartialEq)]
pub enum PrimitiveGameActionResult {
    DrawCards(Vec<Card>),
    MillCards(Vec<Card>),
    PlayLand(GameObjectId),
    IncreaseLandPlays(usize),
    SearchLibraryToHand(Vec<Card>),
    SearchLibraryToBattlefield(Vec<GameObjectId>),
    Trigger,
}

/// The undo record of one action.
#[derive(Debug, Clone, PartialEq)]
pub enum GameActionResult {
    PassPriority,
    Primitive(PrimitiveGameActionResult),
    CastSpell,
    ActivateAbility(GameObjectId),
    Sequence(Vec<PrimitiveGameActionResult>),
}

// ---------------------------------------------------------------------------
// Spec helpers
// ---------------------------------------------------------------------------

/// The smaller of two values.
pub open spec fn min_val(a: int, b: int) -> int {
    if a <= b {
        a
    } else {
        b
    }
}

/// `s` with its active player replaced.
pub open spec fn with_active(s: StateModel, p: PlayerModel) -> StateModel {
    StateModel { active_player: p, ..s }
}

/// The other player.
pub open spec fn other_player(p: PlayerId) -> PlayerId {
    match p {
        PlayerId::Active => PlayerId::NonActive,
        PlayerId::NonActive => PlayerId::Active,
    }
}

/// The lands of `cs`, in order.
pub open spec fn lands_of(cs: Seq<Card>) -> Seq<Land>
    decreases cs.len(),
{
    if cs.len() == 0 {
        Seq::empty()
    } else {
        match cs.last() {
            Card::Land(l) => lands_of(cs.drop_last()).push(l),
            Card::Spell(_) => lands_of(cs.drop_last()),
        }
    }
}

/// The spells of `cs`, in order.
pub open spec fn spells_of(cs: Seq<Card>) -> Seq<Spell>
    decreases cs.len(),
{
    if cs.len() == 0 {
        Seq::empty()
    } else {
        match cs.last() {
            Card::Land(_) => spells_of(cs.drop_last()),
            Card::Spell(sp) => spells_of(cs.drop_last()).push(sp),
        }
    }
}

/// The hand with one card appended to its family.
pub open spec fn hand_push(h: HandModel, c: Card) -> HandModel {
    match c {
        Card::Land(l) => HandModel { lands: h.lands.push(l), ..h },
        Card::Spell(sp) => HandModel { spells: h.spells.push(sp), ..h },
    }
}

/// The graveyard with one card appended to its family.
pub open spec fn graveyard_push(g: GraveyardModel, c: Card) -> GraveyardModel {
    match c {
        Card::Land(l) => GraveyardModel { lands: g.lands.push(l), ..g },
        Card::Spell(sp) => GraveyardModel { spells: g.spells.push(sp), ..g },
    }
}

// ---------------------------------------------------------------------------
// Apply transitions
// ---------------------------------------------------------------------------

/// The player after drawing one known card into the hand.
pub open spec fn draw_step(p: PlayerModel, c: Card) -> PlayerModel {
    PlayerModel { library: lib_remove(p.library, c), hand: hand_push(p.hand, c), ..p }
}

/// The player after drawing the cards of `cs`, in order.
pub open spec fn draw_many(p: PlayerModel, cs: Seq<Card>) -> PlayerModel
    decreases cs.len(),
{
    if cs.len() == 0 {
        p
    } else {
        draw_step(draw_many(p, cs.drop_last()), cs.last())
    }
}

/// Each card of `cs` still had a positive count when its turn came.
pub open spec fn draws_ok(p: PlayerModel, cs: Seq<Card>) -> bool
    decreases cs.len(),
{
    if cs.len() == 0 {
        true
    } else {
        draws_ok(p, cs.drop_last()) && draw_many(p, cs.drop_last()).library.cards[card_tag(
            cs.last(),
        )] > 0
    }
}

/// The player after milling one known card into the graveyard.
pub open spec fn mill_step(p: PlayerModel, c: Card) -> PlayerModel {
    PlayerModel { library: lib_remove(p.library, c), graveyard: graveyard_push(p.graveyard, c), ..p }
}

/// The player after milling the cards of `cs`, in order.
pub open spec fn mill_many(p: PlayerModel, cs: Seq<Card>) -> PlayerModel
    decreases cs.len(),
{
    if cs.len() == 0 {
        p
    } else {
        mill_step(mill_many(p, cs.drop_last()), cs.last())
    }
}

/// Like [`draws_ok`], for milling.
pub open spec fn mills_ok(p: PlayerModel, cs: Seq<Card>) -> bool
    decreases cs.len(),
{
    if cs.len() == 0 {
        true
    } else {
        mills_ok(p, cs.drop_last()) && mill_many(p, cs.drop_last()).library.cards[card_tag(
            cs.last(),
        )] > 0
    }
}

/// One search step: take one copy of `c` from the library if present, and
/// put the card in the hand either way.
pub open spec fn search_hand_step(p: PlayerModel, c: Card) -> PlayerModel {
    PlayerModel { library: lib_remove_sat(p.library, c), hand: hand_push(p.hand, c), ..p }
}

/// The player after searching each card of `cs` to the hand, in order.
pub open spec fn search_hand_many(p: PlayerModel, cs: Seq<Card>) -> PlayerModel
    decreases cs.len(),
{
    if cs.len() == 0 {
        p
    } else {
        search_hand_step(search_hand_many(p, cs.drop_last()), cs.last())
    }
}

/// Whether a card of this kind can sit on the battlefield.
pub open spec fn is_battlefield_card(c: Card) -> bool {
    !(c matches Card::Spell(Spell::NonPermanent(_)))
}

/// One search-to-battlefield step: take one copy from the library if
/// present; a land or permanent spell is minted onto the battlefield under
/// a fresh identity, while a non-permanent spell is skipped and mints
/// nothing.
pub open spec fn search_bf_step(s: StateModel, g: GameObject<Card>) -> StateModel {
    let ap = s.active_player;
    let lib = lib_remove_sat(ap.library, g.permanent);
    match g.permanent {
        Card::Land(l) => StateModel {
            active_player: PlayerModel {
                library: lib,
                battlefield: BattlefieldModel {
                    lands: ap.battlefield.lands.push(
                        BattlefieldSlot {
                            id: GameObjectId(s.next_id as usize),
                            object: GameObject { permanent: l, tap_state: g.tap_state },
                        },
                    ),
                    ..ap.battlefield
                },
                ..ap
            },
            next_id: s.next_id + 1,
            ..s
        },
        Card::Spell(Spell::Permanent(pm)) => StateModel {
            active_player: PlayerModel {
                library: lib,
                battlefield: BattlefieldModel {
                    non_lands: ap.battlefield.non_lands.push(
                        BattlefieldSlot {
                            id: GameObjectId(s.next_id as usize),
                            object: GameObject { permanent: pm, tap_state: g.tap_state },
                        },
                    ),
                    ..ap.battlefield
                },
                ..ap
            },
            next_id: s.next_id + 1,
            ..s
        },
        Card::Spell(Spell::NonPermanent(_)) => with_active(
            s,
            PlayerModel { library: lib, ..ap },
        ),
    }
}

/// The state after searching each requested object to the battlefield.
pub open spec fn search_bf_many(s: StateModel, gs: Seq<GameObject<Card>>) -> StateModel
    decreases gs.len(),
{
    if gs.len() == 0 {
        s
    } else {
        search_bf_step(search_bf_many(s, gs.drop_last()), gs.last())
    }
}

/// The identities such a search mints, in order; skipped entries mint none.
pub open spec fn search_bf_ids(s: StateModel, gs: Seq<GameObject<Card>>) -> Seq<GameObjectId>
    decreases gs.len(),
{
    if gs.len() == 0 {
        Seq::empty()
    } else {
        let prev = search_bf_ids(s, gs.drop_last());
        let mid = search_bf_many(s, gs.drop_last());
        if is_battlefield_card(gs.last().permanent) {
            prev.push(GameObjectId(mid.next_id as usize))
        } else {
            prev
        }
    }
}

/// Exactly what applying one primitive does: how `s2` and the returned
/// undo record relate to `s`. For a draw or mill the drawn cards are the
/// record's; everything else is a function of `s` and the action.
pub open spec fn prim_apply_rel(
    a: PrimitiveGameAction,
    s: StateModel,
    res: PrimitiveGameActionResult,
    s2: StateModel,
) -> bool {
    match (a, res) {
        (PrimitiveGameAction::DrawCards(n), PrimitiveGameActionResult::DrawCards(cards)) => {
            &&& cards@.len() == min_val(n as int, s.active_player.library.size as int)
            &&& draws_ok(s.active_player, cards@)
            &&& s2 == with_active(s, draw_many(s.active_player, cards@))
        },
        (PrimitiveGameAction::MillCards(n), PrimitiveGameActionResult::MillCards(cards)) => {
            &&& cards@.len() == min_val(n as int, s.active_player.library.size as int)
            &&& mills_ok(s.active_player, cards@)
            &&& s2 == with_active(s, mill_many(s.active_player, cards@))
        },
        (
            PrimitiveGameAction::PlayLand(land, tap_state),
            PrimitiveGameActionResult::PlayLand(id),
        ) => {
            &&& id == (GameObjectId(s.next_id as usize))
            &&& s2 == (StateModel {
                active_player: PlayerModel {
                    battlefield: BattlefieldModel {
                        lands: s.active_player.battlefield.lands.push(
                            BattlefieldSlot {
                                id,
                                object: GameObject { permanent: land, tap_state },
                            },
                        ),
                        ..s.active_player.battlefield
                    },
                    ..s.active_player
                },
                next_id: s.next_id + 1,
                ..s
            })
        },
        (
            PrimitiveGameAction::IncreaseLandPlays(n),
            PrimitiveGameActionResult::IncreaseLandPlays(m),
        ) => {
            &&& m == n
            &&& s2 == with_active(
                s,
                PlayerModel {
                    battlefield: BattlefieldModel {
                        land_plays: (s.active_player.battlefield.land_plays + n) as nat,
                        ..s.active_player.battlefield
                    },
                    ..s.active_player
                },
            )
        },
        (
            PrimitiveGameAction::SearchLibraryToHand(cards),
            PrimitiveGameActionResult::SearchLibraryToHand(found),
        ) => {
            &&& found@ == cards@
            &&& s2 == with_active(s, search_hand_many(s.active_player, cards@))
        },
        (
            PrimitiveGameAction::SearchLibraryToBattlefield(objects),
            PrimitiveGameActionResult::SearchLibraryToBattlefield(ids),
        ) => {
            &&& ids@ == search_bf_ids(s, objects@)
            &&& s2 == search_bf_many(s, objects@)
        },
        (PrimitiveGameAction::Trigger(t), PrimitiveGameActionResult::Trigger) => s2 == (StateModel {
            stack: s.stack.push(StackObject::Trigger(t)),
            ..s
        }),
        _ => false,
    }
}

/// Exactly what applying one action does.
pub open spec fn apply_rel(
    a: GameAction,
    s: StateModel,
    res: GameActionResult,
    s2: StateModel,
) -> bool {
    match (a, res) {
        (GameAction::PassPriority, GameActionResult::PassPriority) => s2 == (StateModel {
            priority: other_player(s.priority),
            ..s
        }),
        (GameAction::Primitive(p), GameActionResult::Primitive(r)) => prim_apply_rel(p, s, r, s2),
        (GameAction::CastSpell(sp), GameActionResult::CastSpell) => s2 == (StateModel {
            stack: s.stack.push(StackObject::Spell(sp)),
            ..s
        }),
        (
            GameAction::ActivateAbility { source, target },
            GameActionResult::ActivateAbility(src),
        ) => {
            &&& src == source
            &&& s2 == (StateModel {
                stack: s.stack.push(StackObject::ActivatedAbility { source, target }),
                ..s
            })
        },
        (GameAction::Sequence(actions), GameActionResult::Sequence(results)) => seq_apply_rel(
            actions@,
            s,
            results@,
            s2,
        ),
        _ => false,
    }
}

/// A chain of primitive applies: each step's output state feeds the next.
pub open spec fn seq_apply_rel(
    actions: Seq<PrimitiveGameAction>,
    s: StateModel,
    results: Seq<PrimitiveGameActionResult>,
    s2: StateModel,
) -> bool
    decreases actions.len(),
{
    if actions.len() == 0 {
        results.len() == 0 && s2 == s
    } else {
        &&& results.len() == actions.len()
        &&& exists|mid: StateModel|
            seq_apply_rel(actions.drop_last(), s, results.drop_last(), mid) && prim_apply_rel(
                actions.last(),
                mid,
                results.last(),
                s2,
            )
    }
}

// ---------------------------------------------------------------------------
// Machine headroom
// ---------------------------------------------------------------------------

/// How many fresh identities this primitive may mint.
pub open spec fn prim_ids_needed(a: PrimitiveGameAction) -> int {
    match a {
        PrimitiveGameAction::PlayLand(_, _) => 1,
        PrimitiveGameAction::SearchLibraryToBattlefield(objects) => objects@.len() as int,
        _ => 0,
    }
}

/// How much this primitive raises the land-play counter.
pub open spec fn prim_plays_added(a: PrimitiveGameAction) -> int {
    match a {
        PrimitiveGameAction::IncreaseLandPlays(n) => n as int,
        _ => 0,
    }
}

/// Identities a whole sequence may mint.
pub open spec fn prims_ids_needed(actions: Seq<PrimitiveGameAction>) -> int
    decreases actions.len(),
{
    if actions.len() == 0 {
        0
    } else {
        prim_ids_needed(actions.first()) + prims_ids_needed(actions.drop_first())
    }
}

/// Land plays a whole sequence may add.
pub open spec fn prims_plays_added(actions: Seq<PrimitiveGameAction>) -> int
    decreases actions.len(),
{
    if actions.len() == 0 {
        0
    } else {
        prim_plays_added(actions.first()) + prims_plays_added(actions.drop_first())
    }
}

/// The machine limits a primitive needs: its counters must not overflow.
pub open spec fn prim_can_apply(a: PrimitiveGameAction, s: StateModel) -> bool {
    &&& s.next_id + prim_ids_needed(a) <= usize::MAX
    &&& s.active_player.battlefield.land_plays + prim_plays_added(a) <= usize::MAX
}

/// The machine limits an action needs.
pub open spec fn can_apply(a: GameAction, s: StateModel) -> bool {
    match a {
        GameAction::Primitive(p) => prim_can_apply(p, s),
        GameAction::Sequence(actions) => {
            &&& s.next_id + prims_ids_needed(actions@) <= usize::MAX
            &&& s.active_player.battlefield.land_plays + prims_plays_added(actions@) <= usize::MAX
        },
        _ => true,
    }
}

// ---------------------------------------------------------------------------
// Facts about the transitions
// ---------------------------------------------------------------------------

/// Removing a present card keeps the library balanced.
pub proof fn lemma_lib_remove_wf(m: LibraryModel, c: Card)
    requires
        m.wf(),
        m.cards[card_tag(c)] > 0,
    ensures
        lib_remove(m, c).wf(),
        lib_remove(m, c).size == m.size - 1,
{
    lemma_entry_le_sum(m.cards, card_tag(c));
    lemma_sum_counts_update(m.cards, card_tag(c), (m.cards[card_tag(c)] - 1) as usize);
}

/// Saturating removal keeps the library balanced.
pub proof fn lemma_lib_remove_sat_wf(m: LibraryModel, c: Card)
    requires
        m.wf(),
    ensures
        lib_remove_sat(m, c).wf(),
        lib_remove_sat(m, c).size <= m.size,
{
    if m.cards[card_tag(c)] > 0 {
        lemma_lib_remove_wf(m, c);
    }
}

/// Adding back the card just removed restores the library exactly.
pub proof fn lemma_lib_remove_add(m: LibraryModel, c: Card)
    requires
        m.cards[card_tag(c)] > 0,
        m.size > 0,
        0 <= card_tag(c) < m.cards.len(),
    ensures
        lib_add(lib_remove(m, c), c) == m,
{
    assert(lib_add(lib_remove(m, c), c).cards =~= m.cards);
    assert(lib_add(lib_remove(m, c), c) =~= m);
}

/// What a draw sequence does to each part of the player.
pub proof fn lemma_draw_many_facts(p: PlayerModel, cs: Seq<Card>)
    requires
        p.library.wf(),
        draws_ok(p, cs),
    ensures
        draw_many(p, cs).library.wf(),
        draw_many(p, cs).library.size == p.library.size - cs.len(),
        draw_many(p, cs).hand.lands == p.hand.lands + lands_of(cs),
        draw_many(p, cs).hand.spells == p.hand.spells + spells_of(cs),
        draw_many(p, cs).battlefield == p.battlefield,
        draw_many(p, cs).graveyard == p.graveyard,
        draw_many(p, cs).life_total == p.life_total,
        draw_many(p, cs).mana_pool == p.mana_pool,
    decreases cs.len(),
{
    if cs.len() == 0 {
        assert(p.hand.lands + lands_of(cs) =~= p.hand.lands);
        assert(p.hand.spells + spells_of(cs) =~= p.hand.spells);
    } else {
        lemma_draw_many_facts(p, cs.drop_last());
        let q = draw_many(p, cs.drop_last());
        lemma_lib_remove_wf(q.library, cs.last());
        match cs.last() {
            Card::Land(l) => {
                assert(q.hand.lands.push(l) =~= p.hand.lands + lands_of(cs));
                assert(q.hand.spells =~= p.hand.spells + spells_of(cs));
            },
            Card::Spell(sp) => {
                assert(q.hand.spells.push(sp) =~= p.hand.spells + spells_of(cs));
                assert(q.hand.lands =~= p.hand.lands + lands_of(cs));
            },
        }
    }
}

/// What a mill sequence does to each part of the player.
pub proof fn lemma_mill_many_facts(p: PlayerModel, cs: Seq<Card>)
    requires
        p.library.wf(),
        mills_ok(p, cs),
    ensures
        mill_many(p, cs).library.wf(),
        mill_many(p, cs).library.size == p.library.size - cs.len(),
        mill_many(p, cs).graveyard.lands == p.graveyard.lands + lands_of(cs),
        mill_many(p, cs).graveyard.spells == p.graveyard.spells + spells_of(cs),
        mill_many(p, cs).battlefield == p.battlefield,
        mill_many(p, cs).hand == p.hand,
        mill_many(p, cs).life_total == p.life_total,
        mill_many(p, cs).mana_pool == p.mana_pool,
    decreases cs.len(),
{
    if cs.len() == 0 {
        assert(p.graveyard.lands + lands_of(cs) =~= p.graveyard.lands);
        assert(p.graveyard.spells + spells_of(cs) =~= p.graveyard.spells);
    } else {
        lemma_mill_many_facts(p, cs.drop_last());
        let q = mill_many(p, cs.drop_last());
        lemma_lib_remove_wf(q.library, cs.last());
        match cs.last() {
            Card::Land(l) => {
                assert(q.graveyard.lands.push(l) =~= p.graveyard.lands + lands_of(cs));
                assert(q.graveyard.spells =~= p.graveyard.spells + spells_of(cs));
            },
            Card::Spell(sp) => {
                assert(q.graveyard.spells.push(sp) =~= p.graveyard.spells + spells_of(cs));
                assert(q.graveyard.lands =~= p.graveyard.lands + lands_of(cs));
            },
        }
    }
}

/// What a search-to-hand sequence does to each part of the player.
pub proof fn lemma_search_hand_facts(p: PlayerModel, cs: Seq<Card>)
    requires
        p.library.wf(),
    ensures
        search_hand_many(p, cs).library.wf(),
        search_hand_many(p, cs).library.size <= p.library.size,
        search_hand_many(p, cs).hand.lands == p.hand.lands + lands_of(cs),
        search_hand_many(p, cs).hand.spells == p.hand.spells + spells_of(cs),
        search_hand_many(p, cs).battlefield == p.battlefield,
        search_hand_many(p, cs).graveyard == p.graveyard,
        search_hand_many(p, cs).life_total == p.life_total,
        search_hand_many(p, cs).mana_pool == p.mana_pool,
    decreases cs.len(),
{
    if cs.len() == 0 {
        assert(p.hand.lands + lands_of(cs) =~= p.hand.lands);
        assert(p.hand.spells + spells_of(cs) =~= p.hand.spells);
    } else {
        lemma_search_hand_facts(p, cs.drop_last());
        let q = search_hand_many(p, cs.drop_last());
        lemma_lib_remove_sat_wf(q.library, cs.last());
        match cs.last() {
            Card::Land(l) => {
                assert(q.hand.lands.push(l) =~= p.hand.lands + lands_of(cs));
                assert(q.hand.spells =~= p.hand.spells + spells_of(cs));
            },
            Card::Spell(sp) => {
                assert(q.hand.spells.push(sp) =~= p.hand.spells + spells_of(cs));
                assert(q.hand.lands =~= p.hand.lands + lands_of(cs));
            },
        }
    }
}

/// What a search-to-battlefield sequence does to the state: the invariant
/// survives, the mint counter moves by at most one per entry, and nothing
/// outside the library and battlefield changes.
pub proof fn lemma_search_bf_facts(s: StateModel, gs: Seq<GameObject<Card>>)
    requires
        state_wf(s),
        s.next_id + gs.len() <= usize::MAX,
    ensures
        state_wf(search_bf_many(s, gs)),
        s.next_id <= search_bf_many(s, gs).next_id <= s.next_id + gs.len(),
        search_bf_many(s, gs).stack == s.stack,
        search_bf_many(s, gs).priority == s.priority,
        search_bf_many(s, gs).non_active_player == s.non_active_player,
        search_bf_many(s, gs).active_player.hand == s.active_player.hand,
        search_bf_many(s, gs).active_player.graveyard == s.active_player.graveyard,
        search_bf_many(s, gs).active_player.life_total == s.active_player.life_total,
        search_bf_many(s, gs).active_player.mana_pool == s.active_player.mana_pool,
        search_bf_many(s, gs).active_player.battlefield.land_plays
            == s.active_player.battlefield.land_plays,
        search_bf_many(s, gs).active_player.library.wf(),
        search_bf_ids(s, gs).len() <= gs.len(),
    decreases gs.len(),
{
    if gs.len() > 0 {
        lemma_search_bf_facts(s, gs.drop_last());
        let mid = search_bf_many(s, gs.drop_last());
        lemma_lib_remove_sat_wf(mid.active_player.library, gs.last().permanent);
        let s2 = search_bf_step(mid, gs.last());
        match gs.last().permanent {
            Card::Land(_) => {
                let b = mid.active_player.battlefield;
                let b2 = s2.active_player.battlefield;
                assert(b2.lands.last().id.0 == mid.next_id);
                assert forall|i: int, j: int| 0 <= i < j < b2.lands.len() implies b2.lands[i].id
                    != b2.lands[j].id by {
                    if j < b2.lands.len() - 1 {
                        assert(b.lands[i].id != b.lands[j].id);
                    } else {
                        assert((b.lands[i].id).0 < mid.next_id);
                    }
                }
                assert(bf_ids_unique(b2));
                assert(bf_ids_below(b2, s2.next_id));
            },
            Card::Spell(Spell::Permanent(_)) => {
                let b = mid.active_player.battlefield;
                let b2 = s2.active_player.battlefield;
                assert(b2.non_lands.last().id.0 == mid.next_id);
                assert forall|i: int, j: int|
                    0 <= i < j < b2.non_lands.len() implies b2.non_lands[i].id
                    != b2.non_lands[j].id by {
                    if j < b2.non_lands.len() - 1 {
                        assert(b.non_lands[i].id != b.non_lands[j].id);
                    } else {
                        assert((b.non_lands[i].id).0 < mid.next_id);
                    }
                }
                assert(bf_ids_unique(b2));
                assert(bf_ids_below(b2, s2.next_id));
            },
            Card::Spell(Spell::NonPermanent(_)) => {},
        }
    }
}

/// Applying a primitive preserves the state invariant; the mint counter
/// never falls and moves at most by the primitive's need, and the land-play
/// counter rises at most by what the primitive adds.
pub proof fn lemma_prim_apply_wf(
    a: PrimitiveGameAction,
    s: StateModel,
    res: PrimitiveGameActionResult,
    s2: StateModel,
)
    requires
        state_wf(s),
        prim_can_apply(a, s),
        prim_apply_rel(a, s, res, s2),
    ensures
        state_wf(s2),
        s.next_id <= s2.next_id <= s.next_id + prim_ids_needed(a),
        s2.active_player.battlefield.land_plays <= s.active_player.battlefield.land_plays
            + prim_plays_added(a),
    decreases a,
{
    match (a, res) {
        (PrimitiveGameAction::DrawCards(_), PrimitiveGameActionResult::DrawCards(cards)) => {
            lemma_draw_many_facts(s.active_player, cards@);
        },
        (PrimitiveGameAction::MillCards(_), PrimitiveGameActionResult::MillCards(cards)) => {
            lemma_mill_many_facts(s.active_player, cards@);
        },
        (PrimitiveGameAction::PlayLand(_, _), PrimitiveGameActionResult::PlayLand(_)) => {
            let b = s.active_player.battlefield;
            let b2 = s2.active_player.battlefield;
            assert forall|i: int, j: int| 0 <= i < j < b2.lands.len() implies b2.lands[i].id
                != b2.lands[j].id by {
                if j < b2.lands.len() - 1 {
                    assert(b.lands[i].id != b.lands[j].id);
                } else {
                    assert((b.lands[i].id).0 < s.next_id);
                }
            }
            assert(bf_ids_unique(b2));
            assert(bf_ids_below(b2, s2.next_id));
        },
        (
            PrimitiveGameAction::IncreaseLandPlays(_),
            PrimitiveGameActionResult::IncreaseLandPlays(_),
        ) => {},
        (
            PrimitiveGameAction::SearchLibraryToHand(cards),
            PrimitiveGameActionResult::SearchLibraryToHand(_),
        ) => {
            lemma_search_hand_facts(s.active_player, cards@);
        },
        (
            PrimitiveGameAction::SearchLibraryToBattlefield(objects),
            PrimitiveGameActionResult::SearchLibraryToBattlefield(_),
        ) => {
            lemma_search_bf_facts(s, objects@);
        },
        (PrimitiveGameAction::Trigger(_), PrimitiveGameActionResult::Trigger) => {},
        _ => {},
    }
}

/// A sequence's totals decompose at its first element.
pub proof fn lemma_prims_needs_first(actions: Seq<PrimitiveGameAction>)
    requires
        actions.len() > 0,
    ensures
        prims_ids_needed(actions) == prim_ids_needed(actions.first()) + prims_ids_needed(
            actions.drop_first(),
        ),
        prims_plays_added(actions) == prim_plays_added(actions.first()) + prims_plays_added(
            actions.drop_first(),
        ),
{
}

/// A sequence's totals decompose at its last element.
pub proof fn lemma_prims_needs_last(actions: Seq<PrimitiveGameAction>)
    requires
        actions.len() > 0,
    ensures
        prims_ids_needed(actions) == prims_ids_needed(actions.drop_last()) + prim_ids_needed(
            actions.last(),
        ),
        prims_plays_added(actions) == prims_plays_added(actions.drop_last()) + prim_plays_added(
            actions.last(),
        ),
    decreases actions.len(),
{
    if actions.len() == 1 {
        assert(actions.drop_last() =~= Seq::<PrimitiveGameAction>::empty());
        assert(actions.drop_first() =~= Seq::<PrimitiveGameAction>::empty());
        assert(actions.first() == actions.last());
    } else {
        lemma_prims_needs_last(actions.drop_first());
        assert(actions.drop_first().drop_last() =~= actions.drop_last().drop_first());
        assert(actions.drop_first().last() == actions.last());
        assert(actions.drop_last().first() == actions.first());
        assert(actions.drop_last().len() > 0);
    }
}

/// A sequence's totals are never negative.
pub proof fn lemma_prims_needs_nonneg(actions: Seq<PrimitiveGameAction>)
    ensures
        prims_ids_needed(actions) >= 0,
        prims_plays_added(actions) >= 0,
    decreases actions.len(),
{
    if actions.len() > 0 {
        lemma_prims_needs_nonneg(actions.drop_first());
    }
}

/// Applying a chain of primitives preserves the state invariant, with the
/// same counter bounds summed over the chain.
pub proof fn lemma_seq_apply_wf(
    actions: Seq<PrimitiveGameAction>,
    s: StateModel,
    results: Seq<PrimitiveGameActionResult>,
    s2: StateModel,
)
    requires
        state_wf(s),
        s.next_id + prims_ids_needed(actions) <= usize::MAX,
        s.active_player.battlefield.land_plays + prims_plays_added(actions) <= usize::MAX,
        seq_apply_rel(actions, s, results, s2),
    ensures
        state_wf(s2),
        s.next_id <= s2.next_id <= s.next_id + prims_ids_needed(actions),
        s2.active_player.battlefield.land_plays <= s.active_player.battlefield.land_plays
            + prims_plays_added(actions),
    decreases actions.len(),
{
    lemma_prims_needs_nonneg(actions);
    if actions.len() > 0 {
        let mid = choose|mid: StateModel|
            seq_apply_rel(actions.drop_last(), s, results.drop_last(), mid) && prim_apply_rel(
                actions.last(),
                mid,
                results.last(),
                s2,
            );
        lemma_prims_needs_last(actions);
        assert(prim_ids_needed(actions.last()) >= 0);
        assert(prim_plays_added(actions.last()) >= 0);
        lemma_prims_needs_nonneg(actions.drop_last());
        lemma_seq_apply_wf(actions.drop_last(), s, results.drop_last(), mid);
        lemma_prim_apply_wf(actions.last(), mid, results.last(), s2);
    }
}

/// Applying any action preserves the state invariant, and the mint counter
/// never falls: identities are never reused.
pub proof fn lemma_apply_wf(a: GameAction, s: StateModel, res: GameActionResult, s2: StateModel)
    requires
        state_wf(s),
        can_apply(a, s),
        apply_rel(a, s, res, s2),
    ensures
        state_wf(s2),
        s.next_id <= s2.next_id,
{
    match (a, res) {
        (GameAction::Primitive(p), GameActionResult::Primitive(r)) => {
            lemma_prim_apply_wf(p, s, r, s2);
        },
        (GameAction::Sequence(actions), GameActionResult::Sequence(results)) => {
            lemma_seq_apply_wf(actions@, s, results@, s2);
        },
        _ => {},
    }
}

// ---------------------------------------------------------------------------
// Revert transitions
// ---------------------------------------------------------------------------

/// Whether the hand holds a card of this identity.
pub open spec fn hand_has(h: HandModel, c: Card) -> bool {
    match c {
        Card::Land(l) => h.lands.contains(l),
        Card::Spell(sp) => h.spells.contains(sp),
    }
}

/// The hand with the last matching entry removed: undo must take the entry
/// nearest the end, the one the apply appended.
pub open spec fn hand_remove(h: HandModel, c: Card) -> HandModel {
    match c {
        Card::Land(l) => HandModel { lands: remove_last_match(h.lands, l), ..h },
        Card::Spell(sp) => HandModel { spells: remove_last_match(h.spells, sp), ..h },
    }
}

/// Whether the graveyard holds a card of this identity.
pub open spec fn graveyard_has(g: GraveyardModel, c: Card) -> bool {
    match c {
        Card::Land(l) => g.lands.contains(l),
        Card::Spell(sp) => g.spells.contains(sp),
    }
}

/// The graveyard with the last matching entry removed.
pub open spec fn graveyard_remove(g: GraveyardModel, c: Card) -> GraveyardModel {
    match c {
        Card::Land(l) => GraveyardModel { lands: remove_last_match(g.lands, l), ..g },
        Card::Spell(sp) => GraveyardModel { spells: remove_last_match(g.spells, sp), ..g },
    }
}

/// The library after the cards of `cs` are put back, last first.
pub open spec fn lib_add_rev(m: LibraryModel, cs: Seq<Card>) -> LibraryModel
    decreases cs.len(),
{
    if cs.len() == 0 {
        m
    } else {
        lib_add_rev(lib_add(m, cs.last()), cs.drop_last())
    }
}

/// A draw can be undone when the hand still holds at least the entries the
/// draw appended.
pub open spec fn draw_rev_ok(p: PlayerModel, cs: Seq<Card>) -> bool {
    &&& lands_of(cs).len() <= p.hand.lands.len()
    &&& spells_of(cs).len() <= p.hand.spells.len()
}

/// Undoing a draw: the drawn entries leave the end of each hand family and
/// the cards return to the library, last first.
pub open spec fn draw_rev(p: PlayerModel, cs: Seq<Card>) -> PlayerModel {
    PlayerModel {
        library: lib_add_rev(p.library, cs),
        hand: HandModel {
            lands: p.hand.lands.take(p.hand.lands.len() - lands_of(cs).len()),
            spells: p.hand.spells.take(p.hand.spells.len() - spells_of(cs).len()),
        },
        ..p
    }
}

/// One step of undoing a mill: the last matching graveyard entry leaves
/// and the card returns to the library.
pub open spec fn mill_rev_step(p: PlayerModel, c: Card) -> PlayerModel {
    PlayerModel { graveyard: graveyard_remove(p.graveyard, c), library: lib_add(p.library, c), ..p }
}

/// Undoing a mill processes the recorded cards last first.
pub open spec fn mill_rev(p: PlayerModel, cs: Seq<Card>) -> PlayerModel
    decreases cs.len(),
{
    if cs.len() == 0 {
        p
    } else {
        mill_rev(mill_rev_step(p, cs.last()), cs.drop_last())
    }
}

/// A mill can be undone when each recorded card, last first, is still in
/// the graveyard when its turn comes.
pub open spec fn mill_rev_ok(p: PlayerModel, cs: Seq<Card>) -> bool
    decreases cs.len(),
{
    if cs.len() == 0 {
        true
    } else {
        graveyard_has(p.graveyard, cs.last()) && mill_rev_ok(mill_rev_step(p, cs.last()), cs.drop_last())
    }
}

/// One step of undoing a search to hand.
pub open spec fn hand_rev_step(p: PlayerModel, c: Card) -> PlayerModel {
    PlayerModel { hand: hand_remove(p.hand, c), library: lib_add(p.library, c), ..p }
}

/// Undoing a search to hand processes the recorded cards last first.
pub open spec fn hand_rev(p: PlayerModel, cs: Seq<Card>) -> PlayerModel
    decreases cs.len(),
{
    if cs.len() == 0 {
        p
    } else {
        hand_rev(hand_rev_step(p, cs.last()), cs.drop_last())
    }
}

/// A search to hand can be undone when each recorded card, last first, is
/// still in the hand when its turn comes.
pub open spec fn hand_rev_ok(p: PlayerModel, cs: Seq<Card>) -> bool
    decreases cs.len(),
{
    if cs.len() == 0 {
        true
    } else {
        hand_has(p.hand, cs.last()) && hand_rev_ok(hand_rev_step(p, cs.last()), cs.drop_last())
    }
}

/// Whether some land slot carries this identity.
pub open spec fn bf_has_land(b: BattlefieldModel, id: GameObjectId) -> bool {
    exists|j: int| 0 <= j < b.lands.len() && b.lands[j].id == id
}

/// Whether some non-land slot carries this identity.
pub open spec fn bf_has_non_land(b: BattlefieldModel, id: GameObjectId) -> bool {
    exists|j: int| 0 <= j < b.non_lands.len() && b.non_lands[j].id == id
}

/// The index of the land slot carrying this identity; under the state
/// invariant at most one does.
pub open spec fn bf_land_ix(b: BattlefieldModel, id: GameObjectId) -> int {
    choose|j: int| 0 <= j < b.lands.len() && b.lands[j].id == id
}

/// The index of the non-land slot carrying this identity.
pub open spec fn bf_non_land_ix(b: BattlefieldModel, id: GameObjectId) -> int {
    choose|j: int| 0 <= j < b.non_lands.len() && b.non_lands[j].id == id
}

/// Undoing a played land: its slot leaves the battlefield; the land came
/// from nowhere the engine tracks, so nothing returns to the library.
pub open spec fn bf_remove_land(p: PlayerModel, id: GameObjectId) -> PlayerModel {
    if bf_has_land(p.battlefield, id) {
        PlayerModel {
            battlefield: BattlefieldModel {
                lands: p.battlefield.lands.remove(bf_land_ix(p.battlefield, id)),
                ..p.battlefield
            },
            ..p
        }
    } else {
        p
    }
}

/// One step of undoing a search to battlefield: the slot carrying the
/// identity leaves, land slots tried first, and its card returns to the
/// library.
pub open spec fn bf_rev_step(p: PlayerModel, id: GameObjectId) -> PlayerModel {
    if bf_has_land(p.battlefield, id) {
        let j = bf_land_ix(p.battlefield, id);
        PlayerModel {
            battlefield: BattlefieldModel { lands: p.battlefield.lands.remove(j), ..p.battlefield },
            library: lib_add(p.library, Card::Land(p.battlefield.lands[j].object.permanent)),
            ..p
        }
    } else if bf_has_non_land(p.battlefield, id) {
        let j = bf_non_land_ix(p.battlefield, id);
        PlayerModel {
            battlefield: BattlefieldModel {
                non_lands: p.battlefield.non_lands.remove(j),
                ..p.battlefield
            },
            library: lib_add(
                p.library,
                Card::Spell(Spell::Permanent(p.battlefield.non_lands[j].object.permanent)),
            ),
            ..p
        }
    } else {
        p
    }
}

/// Undoing a search to battlefield processes the recorded identities last
/// first.
pub open spec fn bf_rev(p: PlayerModel, ids: Seq<GameObjectId>) -> PlayerModel
    decreases ids.len(),
{
    if ids.len() == 0 {
        p
    } else {
        bf_rev(bf_rev_step(p, ids.last()), ids.drop_last())
    }
}

/// A search to battlefield can be undone when each recorded identity, last
/// first, is still on the battlefield when its turn comes.
pub open spec fn bf_rev_ok(p: PlayerModel, ids: Seq<GameObjectId>) -> bool
    decreases ids.len(),
{
    if ids.len() == 0 {
        true
    } else {
        (bf_has_land(p.battlefield, ids.last()) || bf_has_non_land(p.battlefield, ids.last()))
            && bf_rev_ok(bf_rev_step(p, ids.last()), ids.drop_last())
    }
}

/// The land-play counter after a saturating decrease.
pub open spec fn plays_sat_sub(lp: nat, n: nat) -> nat {
    if lp >= n {
        (lp - n) as nat
    } else {
        0
    }
}

/// Whether this record can be reverted against `s`: the state still has
/// the shape the matching apply left. A mismatch is a fatal
/// internal-consistency fault, never a silent no-op.
pub open spec fn prim_revertible(res: PrimitiveGameActionResult, s: StateModel) -> bool {
    match res {
        PrimitiveGameActionResult::DrawCards(cards) => draw_rev_ok(s.active_player, cards@),
        PrimitiveGameActionResult::MillCards(cards) => mill_rev_ok(s.active_player, cards@),
        PrimitiveGameActionResult::PlayLand(id) => bf_has_land(s.active_player.battlefield, id),
        PrimitiveGameActionResult::IncreaseLandPlays(_) => true,
        PrimitiveGameActionResult::SearchLibraryToHand(cards) => hand_rev_ok(
            s.active_player,
            cards@,
        ),
        PrimitiveGameActionResult::SearchLibraryToBattlefield(ids) => bf_rev_ok(
            s.active_player,
            ids@,
        ),
        PrimitiveGameActionResult::Trigger => s.stack.len() > 0 && (s.stack.last()
            matches StackObject::Trigger(_)),
    }
}

/// Exactly the state a successful revert of this record restores.
pub open spec fn prim_revert_model(res: PrimitiveGameActionResult, s: StateModel) -> StateModel {
    match res {
        PrimitiveGameActionResult::DrawCards(cards) => with_active(
            s,
            draw_rev(s.active_player, cards@),
        ),
        PrimitiveGameActionResult::MillCards(cards) => with_active(
            s,
            mill_rev(s.active_player, cards@),
        ),
        PrimitiveGameActionResult::PlayLand(id) => with_active(
            s,
            bf_remove_land(s.active_player, id),
        ),
        PrimitiveGameActionResult::IncreaseLandPlays(n) => with_active(
            s,
            PlayerModel {
                battlefield: BattlefieldModel {
                    land_plays: plays_sat_sub(s.active_player.battlefield.land_plays, n as nat),
                    ..s.active_player.battlefield
                },
                ..s.active_player
            },
        ),
        PrimitiveGameActionResult::SearchLibraryToHand(cards) => with_active(
            s,
            hand_rev(s.active_player, cards@),
        ),
        PrimitiveGameActionResult::SearchLibraryToBattlefield(ids) => with_active(
            s,
            bf_rev(s.active_player, ids@),
        ),
        PrimitiveGameActionResult::Trigger => StateModel { stack: s.stack.drop_last(), ..s },
    }
}

/// Whether a chain of records can be reverted, last first.
pub open spec fn seq_rev_ok(results: Seq<PrimitiveGameActionResult>, s: StateModel) -> bool
    decreases results.len(),
{
    if results.len() == 0 {
        true
    } else {
        prim_revertible(results.last(), s) && seq_rev_ok(
            results.drop_last(),
            prim_revert_model(results.last(), s),
        )
    }
}

/// The state after reverting a chain of records, last first.
pub open spec fn seq_rev_model(results: Seq<PrimitiveGameActionResult>, s: StateModel) -> StateModel
    decreases results.len(),
{
    if results.len() == 0 {
        s
    } else {
        seq_rev_model(results.drop_last(), prim_revert_model(results.last(), s))
    }
}

/// Whether this record can be reverted against `s`. A stack record demands
/// that the top of the stack still be the kind of object it pushed.
pub open spec fn action_revertible(res: GameActionResult, s: StateModel) -> bool {
    match res {
        GameActionResult::PassPriority => true,
        GameActionResult::Primitive(r) => prim_revertible(r, s),
        GameActionResult::CastSpell => s.stack.len() > 0 && (s.stack.last()
            matches StackObject::Spell(_)),
        GameActionResult::ActivateAbility(_) => s.stack.len() > 0 && (s.stack.last()
            matches StackObject::ActivatedAbility { .. }),
        GameActionResult::Sequence(results) => seq_rev_ok(results@, s),
    }
}

/// Exactly the state a successful revert of this record restores.
pub open spec fn action_revert_model(res: GameActionResult, s: StateModel) -> StateModel {
    match res {
        GameActionResult::PassPriority => StateModel { priority: other_player(s.priority), ..s },
        GameActionResult::Primitive(r) => prim_revert_model(r, s),
        GameActionResult::CastSpell => StateModel { stack: s.stack.drop_last(), ..s },
        GameActionResult::ActivateAbility(_) => StateModel { stack: s.stack.drop_last(), ..s },
        GameActionResult::Sequence(results) => seq_rev_model(results@, s),
    }
}

/// How many cards a revert of this record returns to the library.
pub open spec fn prim_cards_restored(res: PrimitiveGameActionResult) -> int {
    match res {
        PrimitiveGameActionResult::DrawCards(cards) => cards@.len() as int,
        PrimitiveGameActionResult::MillCards(cards) => cards@.len() as int,
        PrimitiveGameActionResult::SearchLibraryToHand(cards) => cards@.len() as int,
        PrimitiveGameActionResult::SearchLibraryToBattlefield(ids) => ids@.len() as int,
        _ => 0,
    }
}

/// Cards a chain of records may return to the library in all.
pub open spec fn seq_cards_restored(results: Seq<PrimitiveGameActionResult>) -> int
    decreases results.len(),
{
    if results.len() == 0 {
        0
    } else {
        seq_cards_restored(results.drop_last()) + prim_cards_restored(results.last())
    }
}

/// The machine limit a revert needs: the library's count total must not
/// overflow when the cards come back.
pub open spec fn prim_rev_headroom(res: PrimitiveGameActionResult, s: StateModel) -> bool {
    s.active_player.library.size + prim_cards_restored(res) <= usize::MAX
}

/// The machine limit an action revert needs.
pub open spec fn action_rev_headroom(res: GameActionResult, s: StateModel) -> bool {
    match res {
        GameActionResult::Primitive(r) => prim_rev_headroom(r, s),
        GameActionResult::Sequence(results) => s.active_player.library.size + seq_cards_restored(
            results@,
        ) <= usize::MAX,
        _ => true,
    }
}

/// A chain never takes cards back out.
pub proof fn lemma_seq_cards_restored_nonneg(results: Seq<PrimitiveGameActionResult>)
    ensures
        seq_cards_restored(results) >= 0,
    decreases results.len(),
{
    if results.len() > 0 {
        lemma_seq_cards_restored_nonneg(results.drop_last());
    }
}

/// Reverting one record grows the library total by at most the cards it
/// carries, and never moves the mint counter or the other player.
pub proof fn lemma_prim_revert_size(res: PrimitiveGameActionResult, s: StateModel)
    ensures
        prim_revert_model(res, s).active_player.library.size <= s.active_player.library.size
            + prim_cards_restored(res),
        prim_revert_model(res, s).next_id == s.next_id,
{
    match res {
        PrimitiveGameActionResult::DrawCards(cards) => {
            lemma_lib_add_rev_size(s.active_player.library, cards@);
        },
        PrimitiveGameActionResult::MillCards(cards) => {
            lemma_mill_rev_size(s.active_player, cards@);
        },
        PrimitiveGameActionResult::SearchLibraryToHand(cards) => {
            lemma_hand_rev_size(s.active_player, cards@);
        },
        PrimitiveGameActionResult::SearchLibraryToBattlefield(ids) => {
            lemma_bf_rev_size(s.active_player, ids@);
        },
        _ => {},
    }
}

/// Putting cards back raises the total by exactly their number.
pub proof fn lemma_lib_add_rev_size(m: LibraryModel, cs: Seq<Card>)
    ensures
        lib_add_rev(m, cs).size == m.size + cs.len(),
    decreases cs.len(),
{
    if cs.len() > 0 {
        lemma_lib_add_rev_size(lib_add(m, cs.last()), cs.drop_last());
    }
}

/// Undoing a mill raises the total by exactly the recorded number.
pub proof fn lemma_mill_rev_size(p: PlayerModel, cs: Seq<Card>)
    ensures
        mill_rev(p, cs).library.size == p.library.size + cs.len(),
    decreases cs.len(),
{
    if cs.len() > 0 {
        lemma_mill_rev_size(mill_rev_step(p, cs.last()), cs.drop_last());
    }
}

/// Undoing a search to hand raises the total by exactly the recorded
/// number.
pub proof fn lemma_hand_rev_size(p: PlayerModel, cs: Seq<Card>)
    ensures
        hand_rev(p, cs).library.size == p.library.size + cs.len(),
    decreases cs.len(),
{
    if cs.len() > 0 {
        lemma_hand_rev_size(hand_rev_step(p, cs.last()), cs.drop_last());
    }
}

/// Undoing a search to battlefield raises the total by at most the number
/// of recorded identities.
pub proof fn lemma_bf_rev_size(p: PlayerModel, ids: Seq<GameObjectId>)
    ensures
        bf_rev(p, ids).library.size <= p.library.size + ids.len(),
    decreases ids.len(),
{
    if ids.len() > 0 {
        lemma_bf_rev_size(bf_rev_step(p, ids.last()), ids.drop_last());
    }
}

/// Removing one land slot keeps identities unique and bounded.
pub proof fn lemma_bf_remove_land_wf(b: BattlefieldModel, j: int, next: nat)
    requires
        bf_ids_unique(b),
        bf_ids_below(b, next),
        0 <= j < b.lands.len(),
    ensures
        bf_ids_unique(BattlefieldModel { lands: b.lands.remove(j), ..b }),
        bf_ids_below(BattlefieldModel { lands: b.lands.remove(j), ..b }, next),
{
    let b2 = BattlefieldModel { lands: b.lands.remove(j), ..b };
    assert forall|x: int, y: int| 0 <= x < y < b2.lands.len() implies b2.lands[x].id
        != b2.lands[y].id by {
        if x < j && y < j {
            assert(b.lands[x].id != b.lands[y].id);
        } else if x < j {
            assert(b.lands[x].id != b.lands[y + 1].id);
        } else {
            assert(b.lands[x + 1].id != b.lands[y + 1].id);
        }
    }
    assert forall|x: int, y: int|
        0 <= x < b2.lands.len() && 0 <= y < b2.non_lands.len() implies b2.lands[x].id
        != b2.non_lands[y].id by {
        if x < j {
            assert(b.lands[x].id != b.non_lands[y].id);
        } else {
            assert(b.lands[x + 1].id != b.non_lands[y].id);
        }
    }
    assert forall|x: int| 0 <= x < b2.lands.len() implies (#[trigger] b2.lands[x].id).0
        < next by {
        if x < j {
            assert((b.lands[x].id).0 < next);
        } else {
            assert((b.lands[x + 1].id).0 < next);
        }
    }
}

/// Removing one non-land slot keeps identities unique and bounded.
pub proof fn lemma_bf_remove_non_land_wf(b: BattlefieldModel, j: int, next: nat)
    requires
        bf_ids_unique(b),
        bf_ids_below(b, next),
        0 <= j < b.non_lands.len(),
    ensures
        bf_ids_unique(BattlefieldModel { non_lands: b.non_lands.remove(j), ..b }),
        bf_ids_below(BattlefieldModel { non_lands: b.non_lands.remove(j), ..b }, next),
{
    let b2 = BattlefieldModel { non_lands: b.non_lands.remove(j), ..b };
    assert forall|x: int, y: int| 0 <= x < y < b2.non_lands.len() implies b2.non_lands[x].id
        != b2.non_lands[y].id by {
        if x < j && y < j {
            assert(b.non_lands[x].id != b.non_lands[y].id);
        } else if x < j {
            assert(b.non_lands[x].id != b.non_lands[y + 1].id);
        } else {
            assert(b.non_lands[x + 1].id != b.non_lands[y + 1].id);
        }
    }
    assert forall|x: int, y: int|
        0 <= x < b2.lands.len() && 0 <= y < b2.non_lands.len() implies b2.lands[x].id
        != b2.non_lands[y].id by {
        if y < j {
            assert(b.lands[x].id != b.non_lands[y].id);
        } else {
            assert(b.lands[x].id != b.non_lands[y + 1].id);
        }
    }
    assert forall|x: int| 0 <= x < b2.non_lands.len() implies (#[trigger] b2.non_lands[x].id).0
        < next by {
        if x < j {
            assert((b.non_lands[x].id).0 < next);
        } else {
            assert((b.non_lands[x + 1].id).0 < next);
        }
    }
}

// ---------------------------------------------------------------------------
// Applying actions
// ---------------------------------------------------------------------------

impl PrimitiveGameAction {
    /// Applies this primitive to the state, in place, and returns the undo
    /// record. The relation in the postcondition pins the new state and the
    /// record to the old state; for a draw or mill the record lists exactly
    /// the cards that left the library, in order.
    pub fn apply(&self, game_state: &mut GameState) -> (res: PrimitiveGameActionResult)
        requires
            old(game_state).wf(),
            prim_can_apply(*self, old(game_state).model()),
        ensures
            final(game_state).wf(),
            prim_apply_rel(*self, old(game_state).model(), res, final(game_state).model()),
            old(game_state).model().next_id <= final(game_state).model().next_id,
    {
        let ghost orig = game_state.model();
        let res = match self {
            PrimitiveGameAction::DrawCards(count) => {
                let n = *count;
                let mut drawn: Vec<Card> = Vec::new();
                let mut i: usize = 0;
                while i < n
                    invariant
                        orig == old(game_state).model(),
                        orig.active_player.library.wf(),
                        draws_ok(orig.active_player, drawn@),
                        game_state.model() == with_active(
                            orig,
                            draw_many(orig.active_player, drawn@),
                        ),
                        drawn@.len() == min_val(i as int, orig.active_player.library.size as int),
                        i <= n,
                    decreases n - i,
                {
                    proof {
                        lemma_draw_many_facts(orig.active_player, drawn@);
                    }
                    let r = game_state.active_player.library.draw_random_card();
                    match r {
                        Some(card) => {
                            match card {
                                Card::Land(l) => game_state.active_player.hand.lands.push(l),
                                Card::Spell(sp) => game_state.active_player.hand.spells.push(sp),
                            }
                            let ghost prev = drawn@;
                            drawn.push(card);
                            proof {
                                assert(drawn@.drop_last() =~= prev);
                                assert(game_state.model() =~= with_active(
                                    orig,
                                    draw_many(orig.active_player, drawn@),
                                ));
                            }
                        },
                        None => {},
                    }
                    i = i + 1;
                }
                let res = PrimitiveGameActionResult::DrawCards(drawn);
                proof {
                    assert(prim_apply_rel(*self, orig, res, game_state.model()));
                }
                res
            },
            PrimitiveGameAction::MillCards(count) => {
                let n = *count;
                let mut milled: Vec<Card> = Vec::new();
                let mut i: usize = 0;
                while i < n
                    invariant
                        orig == old(game_state).model(),
                        orig.active_player.library.wf(),
                        mills_ok(orig.active_player, milled@),
                        game_state.model() == with_active(
                            orig,
                            mill_many(orig.active_player, milled@),
                        ),
                        milled@.len() == min_val(i as int, orig.active_player.library.size as int),
                        i <= n,
                    decreases n - i,
                {
                    proof {
                        lemma_mill_many_facts(orig.active_player, milled@);
                    }
                    let r = game_state.active_player.library.draw_random_card();
                    match r {
                        Some(card) => {
                            match card {
                                Card::Land(l) => game_state.active_player.graveyard.lands.push(l),
                                Card::Spell(sp) => game_state.active_player.graveyard.spells.push(
                                    sp,
                                ),
                            }
                            let ghost prev = milled@;
                            milled.push(card);
                            proof {
                                assert(milled@.drop_last() =~= prev);
                                assert(game_state.model() =~= with_active(
                                    orig,
                                    mill_many(orig.active_player, milled@),
                                ));
                            }
                        },
                        None => {},
                    }
                    i = i + 1;
                }
                let res = PrimitiveGameActionResult::MillCards(milled);
                proof {
                    assert(prim_apply_rel(*self, orig, res, game_state.model()));
                }
                res
            },
            PrimitiveGameAction::PlayLand(land, tap_state) => {
                let id = game_state.next_game_object_id();
                game_state.active_player.battlefield.lands.push(
                    BattlefieldSlot {
                        id,
                        object: GameObject { permanent: *land, tap_state: *tap_state },
                    },
                );
                let res = PrimitiveGameActionResult::PlayLand(id);
                proof {
                    assert(game_state.model() =~= (StateModel {
                        active_player: PlayerModel {
                            battlefield: BattlefieldModel {
                                lands: orig.active_player.battlefield.lands.push(
                                    BattlefieldSlot {
                                        id,
                                        object: GameObject {
                                            permanent: *land,
                                            tap_state: *tap_state,
                                        },
                                    },
                                ),
                                ..orig.active_player.battlefield
                            },
                            ..orig.active_player
                        },
                        next_id: orig.next_id + 1,
                        ..orig
                    }));
                    assert(prim_apply_rel(*self, orig, res, game_state.model()));
                }
                res
            },
            PrimitiveGameAction::IncreaseLandPlays(amount) => {
                let n = *amount;
                let lp = game_state.active_player.battlefield.land_plays;
                game_state.active_player.battlefield.land_plays = lp + n;
                let res = PrimitiveGameActionResult::IncreaseLandPlays(n);
                proof {
                    assert(game_state.model() =~= with_active(
                        orig,
                        PlayerModel {
                            battlefield: BattlefieldModel {
                                land_plays: (orig.active_player.battlefield.land_plays + n) as nat,
                                ..orig.active_player.battlefield
                            },
                            ..orig.active_player
                        },
                    ));
                    assert(prim_apply_rel(*self, orig, res, game_state.model()));
                }
                res
            },
            PrimitiveGameAction::SearchLibraryToHand(cards) => {
                let mut found: Vec<Card> = Vec::new();
                let mut i: usize = 0;
                while i < cards.len()
                    invariant
                        orig == old(game_state).model(),
                        orig.active_player.library.wf(),
                        i <= cards@.len(),
                        found@ == cards@.take(i as int),
                        game_state.model() == with_active(
                            orig,
                            search_hand_many(orig.active_player, cards@.take(i as int)),
                        ),
                    decreases cards@.len() - i,
                {
                    proof {
                        lemma_search_hand_facts(orig.active_player, cards@.take(i as int));
                    }
                    let card = cards[i];
                    game_state.active_player.library.remove_card_saturating(card);
                    match card {
                        Card::Land(l) => game_state.active_player.hand.lands.push(l),
                        Card::Spell(sp) => game_state.active_player.hand.spells.push(sp),
                    }
                    found.push(card);
                    proof {
                        assert(cards@.take(i as int + 1).drop_last() =~= cards@.take(i as int));
                        assert(cards@.take(i as int + 1).last() == cards@[i as int]);
                        assert(found@ =~= cards@.take(i as int + 1));
                        assert(game_state.model() =~= with_active(
                            orig,
                            search_hand_many(orig.active_player, cards@.take(i as int + 1)),
                        ));
                    }
                    i = i + 1;
                }
                proof {
                    assert(cards@.take(cards@.len() as int) =~= cards@);
                }
                let res = PrimitiveGameActionResult::SearchLibraryToHand(found);
                proof {
                    assert(prim_apply_rel(*self, orig, res, game_state.model()));
                }
                res
            },
            PrimitiveGameAction::SearchLibraryToBattlefield(objects) => {
                let mut ids: Vec<GameObjectId> = Vec::new();
                let mut i: usize = 0;
                while i < objects.len()
                    invariant
                        orig == old(game_state).model(),
                        state_wf(orig),
                        orig.next_id + objects@.len() <= usize::MAX,
                        i <= objects@.len(),
                        game_state.model() == search_bf_many(orig, objects@.take(i as int)),
                        ids@ == search_bf_ids(orig, objects@.take(i as int)),
                    decreases objects@.len() - i,
                {
                    proof {
                        lemma_search_bf_facts(orig, objects@.take(i as int));
                    }
                    let ghost pre = game_state.model();
                    let g = objects[i];
                    game_state.active_player.library.remove_card_saturating(g.permanent);
                    match g.permanent {
                        Card::Land(l) => {
                            let id = game_state.next_game_object_id();
                            game_state.active_player.battlefield.lands.push(
                                BattlefieldSlot {
                                    id,
                                    object: GameObject { permanent: l, tap_state: g.tap_state },
                                },
                            );
                            ids.push(id);
                        },
                        Card::Spell(Spell::Permanent(pm)) => {
                            let id = game_state.next_game_object_id();
                            game_state.active_player.battlefield.non_lands.push(
                                BattlefieldSlot {
                                    id,
                                    object: GameObject { permanent: pm, tap_state: g.tap_state },
                                },
                            );
                            ids.push(id);
                        },
                        Card::Spell(Spell::NonPermanent(_)) => {},
                    }
                    proof {
                        assert(objects@.take(i as int + 1).drop_last() =~= objects@.take(i as int));
                        assert(objects@.take(i as int + 1).last() == objects@[i as int]);
                        assert(game_state.model() =~= search_bf_step(pre, objects@[i as int]));
                        assert(game_state.model() =~= search_bf_many(
                            orig,
                            objects@.take(i as int + 1),
                        ));
                        assert(ids@ =~= search_bf_ids(orig, objects@.take(i as int + 1)));
                    }
                    i = i + 1;
                }
                proof {
                    assert(objects@.take(objects@.len() as int) =~= objects@);
                }
                let res = PrimitiveGameActionResult::SearchLibraryToBattlefield(ids);
                proof {
                    assert(prim_apply_rel(*self, orig, res, game_state.model()));
                }
                res
            },
            PrimitiveGameAction::Trigger(trigger) => {
                game_state.stack.objects.push(StackObject::Trigger(*trigger));
                let res = PrimitiveGameActionResult::Trigger;
                proof {
                    assert(game_state.model() =~= (StateModel {
                        stack: orig.stack.push(StackObject::Trigger(*trigger)),
                        ..orig
                    }));
                    assert(prim_apply_rel(*self, orig, res, game_state.model()));
                }
                res
            },
        };
        proof {
            lemma_prim_apply_wf(*self, orig, res, game_state.model());
        }
        res
    }
}

impl GameAction {
    /// Applies this action to the state, in place, and returns the undo
    /// record sufficient on its own to restore the state it found.
    pub fn apply(&self, game_state: &mut GameState) -> (res: GameActionResult)
        requires
            old(game_state).wf(),
            can_apply(*self, old(game_state).model()),
        ensures
            final(game_state).wf(),
            apply_rel(*self, old(game_state).model(), res, final(game_state).model()),
            old(game_state).model().next_id <= final(game_state).model().next_id,
    {
        let ghost orig = game_state.model();
        match self {
            GameAction::PassPriority => {
                game_state.priority = match game_state.priority {
                    PlayerId::Active => PlayerId::NonActive,
                    PlayerId::NonActive => PlayerId::Active,
                };
                let res = GameActionResult::PassPriority;
                proof {
                    assert(game_state.model() =~= (StateModel {
                        priority: other_player(orig.priority),
                        ..orig
                    }));
                    assert(apply_rel(*self, orig, res, game_state.model()));
                }
                res
            },
            GameAction::Primitive(primitive_action) => {
                let result = primitive_action.apply(game_state);
                GameActionResult::Primitive(result)
            },
            GameAction::CastSpell(spell) => {
                game_state.stack.objects.push(StackObject::Spell(*spell));
                let res = GameActionResult::CastSpell;
                proof {
                    assert(game_state.model() =~= (StateModel {
                        stack: orig.stack.push(StackObject::Spell(*spell)),
                        ..orig
                    }));
                    assert(apply_rel(*self, orig, res, game_state.model()));
                }
                res
            },
            GameAction::ActivateAbility { source, target } => {
                let ability = StackObject::ActivatedAbility { source: *source, target: *target };
                game_state.stack.objects.push(ability);
                let res = GameActionResult::ActivateAbility(*source);
                proof {
                    assert(game_state.model() =~= (StateModel {
                        stack: orig.stack.push(
                            StackObject::ActivatedAbility { source: *source, target: *target },
                        ),
                        ..orig
                    }));
                    assert(apply_rel(*self, orig, res, game_state.model()));
                }
                res
            },
            GameAction::Sequence(actions) => {
                let mut results: Vec<PrimitiveGameActionResult> = Vec::new();
                let mut i: usize = 0;
                proof {
                    assert(actions@.skip(0) =~= actions@);
                    assert(actions@.take(0) =~= Seq::<PrimitiveGameAction>::empty());
                }
                while i < actions.len()
                    invariant
                        orig == old(game_state).model(),
                        state_wf(orig),
                        state_wf(game_state.model()),
                        i <= actions@.len(),
                        results@.len() == i,
                        seq_apply_rel(actions@.take(i as int), orig, results@, game_state.model()),
                        game_state.model().next_id + prims_ids_needed(actions@.skip(i as int))
                            <= usize::MAX,
                        game_state.model().active_player.battlefield.land_plays
                            + prims_plays_added(actions@.skip(i as int)) <= usize::MAX,
                    decreases actions@.len() - i,
                {
                    proof {
                        assert(actions@.skip(i as int).first() == actions@[i as int]);
                        lemma_prims_needs_first(actions@.skip(i as int));
                        lemma_prims_needs_nonneg(actions@.skip(i as int).drop_first());
                        assert(actions@.skip(i as int).drop_first() =~= actions@.skip(i as int + 1));
                    }
                    let ghost pre = game_state.model();
                    let ghost prev_results = results@;
                    let r = actions[i].apply(game_state);
                    let ghost rr = r;
                    results.push(r);
                    proof {
                        assert(actions@.take(i as int + 1).drop_last() =~= actions@.take(i as int));
                        assert(actions@.take(i as int + 1).last() == actions@[i as int]);
                        assert(results@.drop_last() =~= prev_results);
                        assert(seq_apply_rel(actions@.take(i as int), orig, prev_results, pre));
                        assert(prim_apply_rel(actions@[i as int], pre, rr, game_state.model()));
                        assert(results@.last() == rr);
                        assert(seq_apply_rel(
                            actions@.take(i as int + 1).drop_last(),
                            orig,
                            results@.drop_last(),
                            pre,
                        ));
                        assert(prim_apply_rel(
                            actions@.take(i as int + 1).last(),
                            pre,
                            results@.last(),
                            game_state.model(),
                        ));
                        assert(seq_apply_rel(
                            actions@.take(i as int + 1),
                            orig,
                            results@,
                            game_state.model(),
                        ));
                        lemma_prim_apply_wf(actions@[i as int], pre, rr, game_state.model());
                    }
                    i = i + 1;
                }
                proof {
                    assert(actions@.take(actions@.len() as int) =~= actions@);
                    lemma_seq_apply_wf(actions@, orig, results@, game_state.model());
                }
                let res = GameActionResult::Sequence(results);
                proof {
                    assert(apply_rel(*self, orig, res, game_state.model()));
                }
                res
            },
        }
    }
}

// ---------------------------------------------------------------------------
// Reverting actions
// ---------------------------------------------------------------------------

/// Counts how many of the cards are lands and how many are spells.
fn count_lands_spells(cards: &Vec<Card>) -> (r: (usize, usize))
    ensures
        r.0 == lands_of(cards@).len(),
        r.1 == spells_of(cards@).len(),
        r.0 + r.1 == cards@.len(),
{
    let mut lands: usize = 0;
    let mut spells: usize = 0;
    let mut i: usize = 0;
    while i < cards.len()
        invariant
            i <= cards@.len(),
            lands == lands_of(cards@.take(i as int)).len(),
            spells == spells_of(cards@.take(i as int)).len(),
            lands + spells == i,
        decreases cards@.len() - i,
    {
        proof {
            assert(cards@.take(i as int + 1).drop_last() =~= cards@.take(i as int));
            assert(cards@.take(i as int + 1).last() == cards@[i as int]);
        }
        match cards[i] {
            Card::Land(_) => {
                lands = lands + 1;
            },
            Card::Spell(_) => {
                spells = spells + 1;
            },
        }
        i = i + 1;
    }
    proof {
        assert(cards@.take(cards@.len() as int) =~= cards@);
    }
    (lands, spells)
}

impl PrimitiveGameActionResult {
    /// Undoes the mutation this record describes, returning whether the
    /// state still had the shape the matching apply left. On a mismatch —
    /// a fatal internal-consistency fault — the work stops where the
    /// mismatch was found and the state must be discarded.
    pub fn revert(&self, game_state: &mut GameState) -> (ok: bool)
        requires
            old(game_state).wf(),
            prim_rev_headroom(*self, old(game_state).model()),
        ensures
            final(game_state).wf(),
            ok == prim_revertible(*self, old(game_state).model()),
            ok ==> final(game_state).model() == prim_revert_model(
                *self,
                old(game_state).model(),
            ),
            final(game_state).model().next_id == old(game_state).model().next_id,
    {
        let ghost orig = game_state.model();
        match self {
            PrimitiveGameActionResult::DrawCards(cards) => {
                let (lands_n, spells_n) = count_lands_spells(cards);
                if lands_n > game_state.active_player.hand.lands.len() || spells_n
                    > game_state.active_player.hand.spells.len() {
                    return false;
                }
                let mut i: usize = cards.len();
                proof {
                    assert(cards@.take(cards@.len() as int) =~= cards@);
                }
                while i > 0
                    invariant
                        orig == old(game_state).model(),
                        *self == PrimitiveGameActionResult::DrawCards(*cards),
                        state_wf(orig),
                        orig.active_player.library.size + cards@.len() <= usize::MAX,
                        i <= cards@.len(),
                        game_state.model() == with_active(
                            orig,
                            PlayerModel {
                                library: game_state.model().active_player.library,
                                ..orig.active_player
                            },
                        ),
                        game_state.model().active_player.library.wf(),
                        game_state.model().active_player.library.size == orig.active_player.library.size
                            + (cards@.len() - i),
                        lib_add_rev(game_state.model().active_player.library, cards@.take(i as int))
                            == lib_add_rev(orig.active_player.library, cards@),
                    decreases i,
                {
                    i = i - 1;
                    let ghost pre_lib = game_state.model().active_player.library;
                    game_state.active_player.library.add_card(cards[i]);
                    proof {
                        assert(cards@.take(i as int + 1).drop_last() =~= cards@.take(i as int));
                        assert(cards@.take(i as int + 1).last() == cards@[i as int]);
                        assert(lib_add_rev(pre_lib, cards@.take(i as int + 1)) == lib_add_rev(
                            game_state.model().active_player.library,
                            cards@.take(i as int),
                        ));
                    }
                }
                proof {
                    assert(cards@.take(0) =~= Seq::<Card>::empty());
                }
                let hl = game_state.active_player.hand.lands.len();
                game_state.active_player.hand.lands.truncate(hl - lands_n);
                let hs = game_state.active_player.hand.spells.len();
                game_state.active_player.hand.spells.truncate(hs - spells_n);
                proof {
                    assert(game_state.model() =~= prim_revert_model(*self, orig));
                }
                true
            },
            PrimitiveGameActionResult::MillCards(cards) => {
                let mut i: usize = cards.len();
                proof {
                    assert(cards@.take(cards@.len() as int) =~= cards@);
                }
                while i > 0
                    invariant
                        orig == old(game_state).model(),
                        state_wf(orig),
                        orig.active_player.library.size + cards@.len() <= usize::MAX,
                        i <= cards@.len(),
                        state_wf(game_state.model()),
                        game_state.model().next_id == orig.next_id,
                        game_state.model() == with_active(
                            orig,
                            PlayerModel {
                                library: game_state.model().active_player.library,
                                graveyard: game_state.model().active_player.graveyard,
                                ..orig.active_player
                            },
                        ),
                        game_state.model().active_player.library.size
                            <= orig.active_player.library.size + (cards@.len() - i),
                        *self == PrimitiveGameActionResult::MillCards(*cards),
                        mill_rev_ok(game_state.model().active_player, cards@.take(i as int))
                            == mill_rev_ok(orig.active_player, cards@),
                        mill_rev_ok(orig.active_player, cards@) ==> mill_rev(
                            game_state.model().active_player,
                            cards@.take(i as int),
                        ) == mill_rev(orig.active_player, cards@),
                    decreases i,
                {
                    i = i - 1;
                    proof {
                        assert(cards@.take(i as int + 1).drop_last() =~= cards@.take(i as int));
                        assert(cards@.take(i as int + 1).last() == cards@[i as int]);
                    }
                    let ghost pre = game_state.model();
                    let card = cards[i];
                    let found: bool = match card {
                        Card::Land(l) => remove_last_land(
                            &mut game_state.active_player.graveyard.lands,
                            l,
                        ),
                        Card::Spell(sp) => remove_last_spell(
                            &mut game_state.active_player.graveyard.spells,
                            sp,
                        ),
                    };
                    if !found {
                        proof {
                            assert(!graveyard_has(pre.active_player.graveyard, card));
                            assert(!mill_rev_ok(pre.active_player, cards@.take(i as int + 1)));
                        }
                        return false;
                    }
                    game_state.active_player.library.add_card(card);
                    proof {
                        assert(game_state.model().active_player =~= mill_rev_step(
                            pre.active_player,
                            card,
                        ));
                        assert(mill_rev_ok(pre.active_player, cards@.take(i as int + 1))
                            == mill_rev_ok(game_state.model().active_player, cards@.take(i as int)));
                    }
                }
                proof {
                    assert(cards@.take(0) =~= Seq::<Card>::empty());
                    assert(game_state.model() =~= prim_revert_model(*self, orig));
                }
                true
            },
            PrimitiveGameActionResult::PlayLand(id) => {
                let r = remove_land_slot(&mut game_state.active_player.battlefield.lands, *id);
                match r {
                    Some(_) => {
                        proof {
                            let j = choose|j: int|
                                0 <= j < orig.active_player.battlefield.lands.len()
                                    && orig.active_player.battlefield.lands[j].id == *id
                                    && game_state.model().active_player.battlefield.lands
                                    == orig.active_player.battlefield.lands.remove(j);
                            assert(bf_has_land(orig.active_player.battlefield, *id));
                            assert(j == bf_land_ix(orig.active_player.battlefield, *id));
                            lemma_bf_remove_land_wf(
                                orig.active_player.battlefield,
                                j,
                                orig.next_id,
                            );
                            assert(game_state.model() =~= prim_revert_model(*self, orig));
                        }
                        true
                    },
                    None => {
                        proof {
                            assert(!bf_has_land(orig.active_player.battlefield, *id));
                        }
                        false
                    },
                }
            },
            PrimitiveGameActionResult::IncreaseLandPlays(amount) => {
                let n = *amount;
                let lp = game_state.active_player.battlefield.land_plays;
                let reduced = if lp >= n {
                    lp - n
                } else {
                    0
                };
                game_state.active_player.battlefield.land_plays = reduced;
                proof {
                    assert(game_state.model() =~= prim_revert_model(*self, orig));
                }
                true
            },
            PrimitiveGameActionResult::SearchLibraryToHand(cards) => {
                let mut i: usize = cards.len();
                proof {
                    assert(cards@.take(cards@.len() as int) =~= cards@);
                }
                while i > 0
                    invariant
                        orig == old(game_state).model(),
                        state_wf(orig),
                        orig.active_player.library.size + cards@.len() <= usize::MAX,
                        i <= cards@.len(),
                        state_wf(game_state.model()),
                        game_state.model().next_id == orig.next_id,
                        game_state.model() == with_active(
                            orig,
                            PlayerModel {
                                library: game_state.model().active_player.library,
                                hand: game_state.model().active_player.hand,
                                ..orig.active_player
                            },
                        ),
                        game_state.model().active_player.library.size
                            <= orig.active_player.library.size + (cards@.len() - i),
                        *self == PrimitiveGameActionResult::SearchLibraryToHand(*cards),
                        hand_rev_ok(game_state.model().active_player, cards@.take(i as int))
                            == hand_rev_ok(orig.active_player, cards@),
                        hand_rev_ok(orig.active_player, cards@) ==> hand_rev(
                            game_state.model().active_player,
                            cards@.take(i as int),
                        ) == hand_rev(orig.active_player, cards@),
                    decreases i,
                {
                    i = i - 1;
                    proof {
                        assert(cards@.take(i as int + 1).drop_last() =~= cards@.take(i as int));
                        assert(cards@.take(i as int + 1).last() == cards@[i as int]);
                    }
                    let ghost pre = game_state.model();
                    let card = cards[i];
                    let found: bool = match card {
                        Card::Land(l) => remove_last_land(
                            &mut game_state.active_player.hand.lands,
                            l,
                        ),
                        Card::Spell(sp) => remove_last_spell(
                            &mut game_state.active_player.hand.spells,
                            sp,
                        ),
                    };
                    if !found {
                        proof {
                            assert(!hand_has(pre.active_player.hand, card));
                            assert(!hand_rev_ok(pre.active_player, cards@.take(i as int + 1)));
                        }
                        return false;
                    }
                    game_state.active_player.library.add_card(card);
                    proof {
                        assert(game_state.model().active_player =~= hand_rev_step(
                            pre.active_player,
                            card,
                        ));
                        assert(hand_rev_ok(pre.active_player, cards@.take(i as int + 1))
                            == hand_rev_ok(game_state.model().active_player, cards@.take(i as int)));
                    }
                }
                proof {
                    assert(cards@.take(0) =~= Seq::<Card>::empty());
                    assert(game_state.model() =~= prim_revert_model(*self, orig));
                }
                true
            },
            PrimitiveGameActionResult::SearchLibraryToBattlefield(ids) => {
                let mut i: usize = ids.len();
                proof {
                    assert(ids@.take(ids@.len() as int) =~= ids@);
                }
                while i > 0
                    invariant
                        orig == old(game_state).model(),
                        state_wf(orig),
                        orig.active_player.library.size + ids@.len() <= usize::MAX,
                        i <= ids@.len(),
                        state_wf(game_state.model()),
                        game_state.model().next_id == orig.next_id,
                        game_state.model() == with_active(
                            orig,
                            PlayerModel {
                                library: game_state.model().active_player.library,
                                battlefield: game_state.model().active_player.battlefield,
                                ..orig.active_player
                            },
                        ),
                        game_state.model().active_player.library.size
                            <= orig.active_player.library.size + (ids@.len() - i),
                        *self == PrimitiveGameActionResult::SearchLibraryToBattlefield(*ids),
                        bf_rev_ok(game_state.model().active_player, ids@.take(i as int)) == bf_rev_ok(
                            orig.active_player,
                            ids@,
                        ),
                        bf_rev_ok(orig.active_player, ids@) ==> bf_rev(
                            game_state.model().active_player,
                            ids@.take(i as int),
                        ) == bf_rev(orig.active_player, ids@),
                    decreases i,
                {
                    i = i - 1;
                    proof {
                        assert(ids@.take(i as int + 1).drop_last() =~= ids@.take(i as int));
                        assert(ids@.take(i as int + 1).last() == ids@[i as int]);
                    }
                    let ghost pre = game_state.model();
                    let id = ids[i];
                    let r = remove_land_slot(&mut game_state.active_player.battlefield.lands, id);
                    match r {
                        Some(obj) => {
                            proof {
                                let b = pre.active_player.battlefield;
                                let j = choose|j: int|
                                    0 <= j < b.lands.len() && b.lands[j].id == id
                                        && game_state.model().active_player.battlefield.lands
                                        == b.lands.remove(j) && obj == b.lands[j].object;
                                assert(bf_has_land(b, id));
                                assert(j == bf_land_ix(b, id));
                                lemma_bf_remove_land_wf(b, j, pre.next_id);
                            }
                            game_state.active_player.library.add_card(Card::Land(obj.permanent));
                            proof {
                                assert(game_state.model().active_player =~= bf_rev_step(
                                    pre.active_player,
                                    id,
                                ));
                            }
                        },
                        None => {
                            proof {
                                assert(!bf_has_land(pre.active_player.battlefield, id));
                            }
                            let r2 = remove_non_land_slot(
                                &mut game_state.active_player.battlefield.non_lands,
                                id,
                            );
                            match r2 {
                                Some(obj) => {
                                    proof {
                                        let b = pre.active_player.battlefield;
                                        let j = choose|j: int|
                                            0 <= j < b.non_lands.len() && b.non_lands[j].id == id
                                                && game_state.model().active_player.battlefield.non_lands
                                                == b.non_lands.remove(j) && obj == b.non_lands[j].object;
                                        assert(bf_has_non_land(b, id));
                                        assert(j == bf_non_land_ix(b, id));
                                        lemma_bf_remove_non_land_wf(b, j, pre.next_id);
                                    }
                                    game_state.active_player.library.add_card(
                                        Card::Spell(Spell::Permanent(obj.permanent)),
                                    );
                                    proof {
                                        assert(game_state.model().active_player =~= bf_rev_step(
                                            pre.active_player,
                                            id,
                                        ));
                                    }
                                },
                                None => {
                                    proof {
                                        assert(!bf_has_non_land(pre.active_player.battlefield, id));
                                        assert(!bf_rev_ok(pre.active_player, ids@.take(i as int + 1)));
                                    }
                                    return false;
                                },
                            }
                        },
                    }
                    proof {
                        assert(bf_rev_ok(pre.active_player, ids@.take(i as int + 1)) == bf_rev_ok(
                            game_state.model().active_player,
                            ids@.take(i as int),
                        ));
                    }
                }
                proof {
                    assert(ids@.take(0) =~= Seq::<GameObjectId>::empty());
                    assert(game_state.model() =~= prim_revert_model(*self, orig));
                }
                true
            },
            PrimitiveGameActionResult::Trigger => {
                let len = game_state.stack.objects.len();
                if len == 0 {
                    return false;
                }
                let is_trigger = match game_state.stack.objects[len - 1] {
                    StackObject::Trigger(_) => true,
                    _ => false,
                };
                if !is_trigger {
                    return false;
                }
                game_state.stack.objects.pop();
                proof {
                    assert(game_state.model().stack =~= orig.stack.drop_last());
                    assert(game_state.model() =~= prim_revert_model(*self, orig));
                }
                true
            },
        }
    }
}

impl GameActionResult {
    /// Undoes the mutation this record describes, returning whether the
    /// state still had the shape the matching apply left. A record that
    /// pushed onto the stack first checks that the top is still its kind
    /// of object: a mismatch means a broken apply/revert nesting, is a
    /// fatal fault, and pops nothing.
    pub fn revert(&self, game_state: &mut GameState) -> (ok: bool)
        requires
            old(game_state).wf(),
            action_rev_headroom(*self, old(game_state).model()),
        ensures
            final(game_state).wf(),
            ok == action_revertible(*self, old(game_state).model()),
            ok ==> final(game_state).model() == action_revert_model(
                *self,
                old(game_state).model(),
            ),
            final(game_state).model().next_id == old(game_state).model().next_id,
    {
        let ghost orig = game_state.model();
        match self {
            GameActionResult::PassPriority => {
                game_state.priority = match game_state.priority {
                    PlayerId::Active => PlayerId::NonActive,
                    PlayerId::NonActive => PlayerId::Active,
                };
                proof {
                    assert(game_state.model() =~= action_revert_model(*self, orig));
                }
                true
            },
            GameActionResult::Primitive(primitive_result) => {
                primitive_result.revert(game_state)
            },
            GameActionResult::CastSpell => {
                let len = game_state.stack.objects.len();
                if len == 0 {
                    return false;
                }
                let is_spell = match game_state.stack.objects[len - 1] {
                    StackObject::Spell(_) => true,
                    _ => false,
                };
                if !is_spell {
                    return false;
                }
                game_state.stack.objects.pop();
                proof {
                    assert(game_state.model().stack =~= orig.stack.drop_last());
                    assert(game_state.model() =~= action_revert_model(*self, orig));
                }
                true
            },
            GameActionResult::ActivateAbility(_) => {
                let len = game_state.stack.objects.len();
                if len == 0 {
                    return false;
                }
                let is_ability = match game_state.stack.objects[len - 1] {
                    StackObject::ActivatedAbility { .. } => true,
                    _ => false,
                };
                if !is_ability {
                    return false;
                }
                game_state.stack.objects.pop();
                proof {
                    assert(game_state.model().stack =~= orig.stack.drop_last());
                    assert(game_state.model() =~= action_revert_model(*self, orig));
                }
                true
            },
            GameActionResult::Sequence(results) => {
                let mut i: usize = results.len();
                proof {
                    assert(results@.take(results@.len() as int) =~= results@);
                }
                while i > 0
                    invariant
                        orig == old(game_state).model(),
                        state_wf(orig),
                        orig.active_player.library.size + seq_cards_restored(results@)
                            <= usize::MAX,
                        i <= results@.len(),
                        state_wf(game_state.model()),
                        game_state.model().next_id == orig.next_id,
                        game_state.model().active_player.library.size + seq_cards_restored(
                            results@.take(i as int),
                        ) <= orig.active_player.library.size + seq_cards_restored(results@),
                        *self == GameActionResult::Sequence(*results),
                        seq_rev_ok(results@.take(i as int), game_state.model()) == seq_rev_ok(
                            results@,
                            orig,
                        ),
                        seq_rev_ok(results@, orig) ==> seq_rev_model(
                            results@.take(i as int),
                            game_state.model(),
                        ) == seq_rev_model(results@, orig),
                    decreases i,
                {
                    i = i - 1;
                    proof {
                        assert(results@.take(i as int + 1).drop_last() =~= results@.take(i as int));
                        assert(results@.take(i as int + 1).last() == results@[i as int]);
                        lemma_seq_cards_restored_nonneg(results@.take(i as int));
                        lemma_seq_cards_restored_nonneg(results@);
                    }
                    let ghost pre = game_state.model();
                    let ok1 = results[i].revert(game_state);
                    if !ok1 {
                        proof {
                            assert(!seq_rev_ok(results@.take(i as int + 1), pre));
                        }
                        return false;
                    }
                    proof {
                        lemma_prim_revert_size(results@[i as int], pre);
                        assert(seq_rev_ok(results@.take(i as int + 1), pre) == seq_rev_ok(
                            results@.take(i as int),
                            game_state.model(),
                        ));
                    }
                }
                proof {
                    assert(results@.take(0) =~= Seq::<PrimitiveGameActionResult>::empty());
                }
                true
            },
        }
    }
}

} // verus!
