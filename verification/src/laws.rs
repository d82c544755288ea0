//! The engine's laws, proved once and for all: applying an action and
//! reverting its record restores the state (only the identity mint counter
//! and the generator's hidden stream move on, both by design), card totals
//! are conserved, identities stay unique, and delirium is monotone.

use vstd::prelude::*;

use crate::cards::{card_tag, type_bit_count, Card, Spell, ARTIFACT, CREATURE, ENCHANTMENT,
    INSTANT, LAND, SORCERY};
use crate::game_action::{
    action_revert_model, action_revertible, apply_rel, bf_has_land, bf_has_non_land, bf_land_ix,
    bf_non_land_ix, bf_remove_land, bf_rev, bf_rev_ok, bf_rev_step, can_apply, draw_many,
    draw_rev, draw_rev_ok, draws_ok, graveyard_push, hand_rev, hand_rev_ok, hand_rev_step,
    is_battlefield_card, lands_of, lemma_draw_many_facts, lemma_lib_remove_add,
    lemma_mill_many_facts, lemma_prims_needs_last, lemma_prims_needs_nonneg,
    lemma_search_bf_facts, lemma_search_hand_facts, lemma_seq_apply_wf, lib_add_rev, mill_many,
    mill_rev, mill_rev_ok, mill_rev_step, mills_ok, prim_apply_rel, prim_can_apply,
    prim_ids_needed, prim_plays_added, prim_revert_model, prim_revertible, prims_ids_needed,
    prims_plays_added, search_bf_ids, search_bf_many, search_hand_many, seq_apply_rel,
    seq_rev_model, seq_rev_ok, spells_of, with_active, GameAction, GameActionResult,
    PrimitiveGameAction, PrimitiveGameActionResult,
};
use crate::game_state::{
    bf_ids_unique, delirium, lib_remove, lib_remove_sat, state_wf, union_type_bits, GameObject,
    GameObjectId,
    GraveyardModel, PlayerModel, StackObject, StateModel,
};
use crate::seqs::{lemma_entry_le_sum, lemma_remove_last_match_push};

verus! {

// ---------------------------------------------------------------------------
// When an apply is exactly undoable
// ---------------------------------------------------------------------------

/// Each searched card is still present when its turn comes. A search for
/// an absent card leaves the library untouched but still fills the hand,
/// so only a present card's search is exactly undoable.
pub open spec fn search_ok(p: PlayerModel, cs: Seq<Card>) -> bool
    decreases cs.len(),
{
    if cs.len() == 0 {
        true
    } else {
        search_ok(p, cs.drop_last()) && search_hand_many(p, cs.drop_last()).library.cards[card_tag(
            cs.last(),
        )] > 0
    }
}

/// Each searched object is a card that can sit on the battlefield and is
/// still present when its turn comes. A non-permanent spell is skipped by
/// the apply after its library copy is taken, which no revert restores.
pub open spec fn search_bf_ok(s: StateModel, gs: Seq<GameObject<Card>>) -> bool
    decreases gs.len(),
{
    if gs.len() == 0 {
        true
    } else {
        &&& search_bf_ok(s, gs.drop_last())
        &&& is_battlefield_card(gs.last().permanent)
        &&& search_bf_many(s, gs.drop_last()).active_player.library.cards[card_tag(
            gs.last().permanent,
        )] > 0
    }
}

/// The inputs on which a primitive's apply is exactly undoable: every
/// primitive but the two searches, and a search whose cards are present
/// (and, for the battlefield, permanents).
pub open spec fn prim_apply_clean(a: PrimitiveGameAction, s: StateModel) -> bool {
    match a {
        PrimitiveGameAction::SearchLibraryToHand(cards) => search_ok(s.active_player, cards@),
        PrimitiveGameAction::SearchLibraryToBattlefield(objects) => search_bf_ok(s, objects@),
        _ => true,
    }
}

/// Cleanness of each step of a chain, judged at the state that step saw.
pub open spec fn seq_apply_clean(
    actions: Seq<PrimitiveGameAction>,
    s: StateModel,
    results: Seq<PrimitiveGameActionResult>,
) -> bool
    decreases actions.len(),
{
    if actions.len() == 0 {
        true
    } else {
        let mid = choose|mid: StateModel|
            seq_apply_rel(actions.drop_last(), s, results.drop_last(), mid);
        seq_apply_clean(actions.drop_last(), s, results.drop_last()) && prim_apply_clean(
            actions.last(),
            mid,
        )
    }
}

/// The inputs on which an action's apply is exactly undoable.
pub open spec fn apply_clean(a: GameAction, s: StateModel, res: GameActionResult) -> bool {
    match (a, res) {
        (GameAction::Primitive(p), GameActionResult::Primitive(_)) => prim_apply_clean(p, s),
        (GameAction::Sequence(actions), GameActionResult::Sequence(results)) => seq_apply_clean(
            actions@,
            s,
            results@,
        ),
        _ => true,
    }
}

// ---------------------------------------------------------------------------
// Determinism of the transition relations
// ---------------------------------------------------------------------------

/// Given the old state and the record, a primitive's apply relation pins
/// the new state completely.
pub proof fn lemma_prim_apply_det(
    a: PrimitiveGameAction,
    s: StateModel,
    res: PrimitiveGameActionResult,
    x: StateModel,
    y: StateModel,
)
    requires
        prim_apply_rel(a, s, res, x),
        prim_apply_rel(a, s, res, y),
    ensures
        x == y,
{
}

/// A chain's apply relation pins the new state completely.
pub proof fn lemma_seq_apply_det(
    actions: Seq<PrimitiveGameAction>,
    s: StateModel,
    results: Seq<PrimitiveGameActionResult>,
    x: StateModel,
    y: StateModel,
)
    requires
        seq_apply_rel(actions, s, results, x),
        seq_apply_rel(actions, s, results, y),
    ensures
        x == y,
    decreases actions.len(),
{
    if actions.len() > 0 {
        let mx = choose|m: StateModel|
            seq_apply_rel(actions.drop_last(), s, results.drop_last(), m) && prim_apply_rel(
                actions.last(),
                m,
                results.last(),
                x,
            );
        let my = choose|m: StateModel|
            seq_apply_rel(actions.drop_last(), s, results.drop_last(), m) && prim_apply_rel(
                actions.last(),
                m,
                results.last(),
                y,
            );
        lemma_seq_apply_det(actions.drop_last(), s, results.drop_last(), mx, my);
        lemma_prim_apply_det(actions.last(), mx, results.last(), x, y);
    }
}

// ---------------------------------------------------------------------------
// Reverting does not read the mint counter
// ---------------------------------------------------------------------------

/// Whether a record can be reverted, and what the revert restores, do not
/// depend on the mint counter, which a revert leaves where it stands.
pub proof fn lemma_prim_rev_next_irrelevant(res: PrimitiveGameActionResult, s: StateModel, n: nat)
    ensures
        prim_revertible(res, (StateModel { next_id: n, ..s })) == prim_revertible(res, s),
        prim_revert_model(res, (StateModel { next_id: n, ..s })) == (StateModel {
            next_id: n,
            ..prim_revert_model(res, s)
        }),
{
    let s2 = StateModel { next_id: n, ..s };
    match res {
        PrimitiveGameActionResult::DrawCards(cards) => {
            assert(prim_revert_model(res, s2) =~= (StateModel {
                next_id: n,
                ..prim_revert_model(res, s)
            }));
        },
        PrimitiveGameActionResult::MillCards(cards) => {
            assert(prim_revert_model(res, s2) =~= (StateModel {
                next_id: n,
                ..prim_revert_model(res, s)
            }));
        },
        PrimitiveGameActionResult::PlayLand(id) => {
            assert(prim_revert_model(res, s2) =~= (StateModel {
                next_id: n,
                ..prim_revert_model(res, s)
            }));
        },
        PrimitiveGameActionResult::IncreaseLandPlays(_) => {
            assert(prim_revert_model(res, s2) =~= (StateModel {
                next_id: n,
                ..prim_revert_model(res, s)
            }));
        },
        PrimitiveGameActionResult::SearchLibraryToHand(cards) => {
            assert(prim_revert_model(res, s2) =~= (StateModel {
                next_id: n,
                ..prim_revert_model(res, s)
            }));
        },
        PrimitiveGameActionResult::SearchLibraryToBattlefield(ids) => {
            assert(prim_revert_model(res, s2) =~= (StateModel {
                next_id: n,
                ..prim_revert_model(res, s)
            }));
        },
        PrimitiveGameActionResult::Trigger => {
            assert(prim_revert_model(res, s2) =~= (StateModel {
                next_id: n,
                ..prim_revert_model(res, s)
            }));
        },
    }
}

/// The same, for a whole chain of records.
pub proof fn lemma_seq_rev_next_irrelevant(
    results: Seq<PrimitiveGameActionResult>,
    s: StateModel,
    n: nat,
)
    ensures
        seq_rev_ok(results, (StateModel { next_id: n, ..s })) == seq_rev_ok(results, s),
        seq_rev_model(results, (StateModel { next_id: n, ..s })) == (StateModel {
            next_id: n,
            ..seq_rev_model(results, s)
        }),
    decreases results.len(),
{
    if results.len() == 0 {
        assert(seq_rev_model(results, (StateModel { next_id: n, ..s })) =~= (StateModel {
            next_id: n,
            ..seq_rev_model(results, s)
        }));
    } else {
        lemma_prim_rev_next_irrelevant(results.last(), s, n);
        lemma_seq_rev_next_irrelevant(results.drop_last(), prim_revert_model(results.last(), s), n);
    }
}

// ---------------------------------------------------------------------------
// Round trips, primitive by primitive
// ---------------------------------------------------------------------------

/// Putting back, last first, the cards a draw took restores the library.
pub proof fn lemma_draw_lib_cancel(p: PlayerModel, cs: Seq<Card>)
    requires
        p.library.wf(),
        draws_ok(p, cs),
    ensures
        lib_add_rev(draw_many(p, cs).library, cs) == p.library,
    decreases cs.len(),
{
    if cs.len() > 0 {
        let q = draw_many(p, cs.drop_last());
        lemma_draw_many_facts(p, cs.drop_last());
        lemma_entry_le_sum(q.library.cards, card_tag(cs.last()));
        lemma_lib_remove_add(q.library, cs.last());
        lemma_draw_lib_cancel(p, cs.drop_last());
    }
}

/// Reverting a draw record against the state the draw left restores the
/// player exactly.
pub proof fn lemma_draw_round_trip(p: PlayerModel, cs: Seq<Card>)
    requires
        p.library.wf(),
        draws_ok(p, cs),
    ensures
        draw_rev_ok(draw_many(p, cs), cs),
        draw_rev(draw_many(p, cs), cs) == p,
{
    lemma_draw_many_facts(p, cs);
    lemma_draw_lib_cancel(p, cs);
    let q = draw_many(p, cs);
    assert(q.hand.lands.take(p.hand.lands.len() as int) =~= p.hand.lands);
    assert(q.hand.spells.take(p.hand.spells.len() as int) =~= p.hand.spells);
    assert(draw_rev(q, cs) =~= p);
}

/// Reverting a mill record against the state the mill left restores the
/// player exactly: each card is taken back from the end of its graveyard
/// family, where the mill appended it.
pub proof fn lemma_mill_round_trip(p: PlayerModel, cs: Seq<Card>)
    requires
        p.library.wf(),
        mills_ok(p, cs),
    ensures
        mill_rev_ok(mill_many(p, cs), cs),
        mill_rev(mill_many(p, cs), cs) == p,
    decreases cs.len(),
{
    if cs.len() > 0 {
        let q = mill_many(p, cs.drop_last());
        lemma_mill_many_facts(p, cs.drop_last());
        let c = cs.last();
        let s1 = mill_many(p, cs);
        lemma_entry_le_sum(q.library.cards, card_tag(c));
        lemma_lib_remove_add(q.library, c);
        match c {
            Card::Land(l) => {
                lemma_remove_last_match_push(q.graveyard.lands, l);
                assert(s1.graveyard.lands.last() == l);
                assert(s1.graveyard.lands.contains(l));
            },
            Card::Spell(sp) => {
                lemma_remove_last_match_push(q.graveyard.spells, sp);
                assert(s1.graveyard.spells.last() == sp);
                assert(s1.graveyard.spells.contains(sp));
            },
        }
        assert(mill_rev_step(s1, c) =~= q);
        lemma_mill_round_trip(p, cs.drop_last());
    }
}

/// Reverting a search-to-hand record against the state the search left
/// restores the player exactly, provided every searched card was present.
pub proof fn lemma_search_hand_round_trip(p: PlayerModel, cs: Seq<Card>)
    requires
        p.library.wf(),
        search_ok(p, cs),
    ensures
        hand_rev_ok(search_hand_many(p, cs), cs),
        hand_rev(search_hand_many(p, cs), cs) == p,
    decreases cs.len(),
{
    if cs.len() > 0 {
        let q = search_hand_many(p, cs.drop_last());
        lemma_search_hand_facts(p, cs.drop_last());
        let c = cs.last();
        let s1 = search_hand_many(p, cs);
        assert(lib_remove_sat(q.library, c) == lib_remove(q.library, c));
        lemma_entry_le_sum(q.library.cards, card_tag(c));
        lemma_lib_remove_add(q.library, c);
        match c {
            Card::Land(l) => {
                lemma_remove_last_match_push(q.hand.lands, l);
                assert(s1.hand.lands.last() == l);
                assert(s1.hand.lands.contains(l));
            },
            Card::Spell(sp) => {
                lemma_remove_last_match_push(q.hand.spells, sp);
                assert(s1.hand.spells.last() == sp);
                assert(s1.hand.spells.contains(sp));
            },
        }
        assert(hand_rev_step(s1, c) =~= q);
        lemma_search_hand_round_trip(p, cs.drop_last());
    }
}

/// Reverting a search-to-battlefield record removes, last first, exactly
/// the slots the search minted and returns their cards, restoring
/// everything but the mint counter, which moves on by design.
pub proof fn lemma_search_bf_round_trip(s: StateModel, gs: Seq<GameObject<Card>>)
    requires
        state_wf(s),
        s.next_id + gs.len() <= usize::MAX,
        search_bf_ok(s, gs),
    ensures
        bf_rev_ok(search_bf_many(s, gs).active_player, search_bf_ids(s, gs)),
        with_active(
            search_bf_many(s, gs),
            bf_rev(search_bf_many(s, gs).active_player, search_bf_ids(s, gs)),
        ) == (StateModel { next_id: search_bf_many(s, gs).next_id, ..s }),
    decreases gs.len(),
{
    if gs.len() == 0 {
        assert(with_active(s, bf_rev(s.active_player, search_bf_ids(s, gs))) =~= (StateModel {
            next_id: s.next_id,
            ..s
        }));
    } else {
        let mid = search_bf_many(s, gs.drop_last());
        let g = gs.last();
        lemma_search_bf_facts(s, gs.drop_last());
        let s2 = search_bf_many(s, gs);
        let prev_ids = search_bf_ids(s, gs.drop_last());
        let id = GameObjectId(mid.next_id as usize);
        assert(search_bf_ids(s, gs) == prev_ids.push(id));
        let c = g.permanent;
        assert(lib_remove_sat(mid.active_player.library, c) == lib_remove(
            mid.active_player.library,
            c,
        ));
        lemma_entry_le_sum(mid.active_player.library.cards, card_tag(c));
        lemma_lib_remove_add(mid.active_player.library, c);
        match c {
            Card::Land(l) => {
                let b2 = s2.active_player.battlefield;
                assert(b2.lands.last().id == id);
                assert(bf_has_land(b2, id));
                assert forall|j: int| 0 <= j < b2.lands.len() && b2.lands[j].id == id implies j
                    == b2.lands.len() - 1 by {
                    if j < b2.lands.len() - 1 {
                        assert((mid.active_player.battlefield.lands[j].id).0 < mid.next_id);
                    }
                }
                assert(bf_land_ix(b2, id) == b2.lands.len() - 1);
                assert(!bf_has_non_land(b2, id) || bf_has_non_land(b2, id));
                assert(b2.lands.remove(b2.lands.len() - 1) =~= mid.active_player.battlefield.lands);
                assert(bf_rev_step(s2.active_player, id) =~= mid.active_player);
            },
            Card::Spell(Spell::Permanent(pm)) => {
                let b2 = s2.active_player.battlefield;
                assert(b2.non_lands.last().id == id);
                assert(bf_has_non_land(b2, id));
                assert(!bf_has_land(b2, id)) by {
                    assert forall|j: int| 0 <= j < b2.lands.len() implies b2.lands[j].id != id by {
                        assert((mid.active_player.battlefield.lands[j].id).0 < mid.next_id);
                    }
                }
                assert forall|j: int|
                    0 <= j < b2.non_lands.len() && b2.non_lands[j].id == id implies j
                    == b2.non_lands.len() - 1 by {
                    if j < b2.non_lands.len() - 1 {
                        assert((mid.active_player.battlefield.non_lands[j].id).0 < mid.next_id);
                    }
                }
                assert(bf_non_land_ix(b2, id) == b2.non_lands.len() - 1);
                assert(b2.non_lands.remove(b2.non_lands.len() - 1)
                    =~= mid.active_player.battlefield.non_lands);
                assert(bf_rev_step(s2.active_player, id) =~= mid.active_player);
            },
            Card::Spell(Spell::NonPermanent(_)) => {
                assert(false);
            },
        }
        lemma_search_bf_round_trip(s, gs.drop_last());
        assert(prev_ids.push(id).drop_last() =~= prev_ids);
        assert(bf_rev(s2.active_player, search_bf_ids(s, gs)) == bf_rev(
            mid.active_player,
            prev_ids,
        ));
        assert(with_active(s2, bf_rev(s2.active_player, search_bf_ids(s, gs))) =~= (StateModel {
            next_id: s2.next_id,
            ..s
        }));
    }
}

/// Reverting any primitive's record against the state its apply left
/// restores that state, except for the mint counter, which stays where
/// the apply moved it: identities are never reused.
pub proof fn lemma_prim_round_trip(
    a: PrimitiveGameAction,
    s: StateModel,
    res: PrimitiveGameActionResult,
    s2: StateModel,
)
    requires
        state_wf(s),
        prim_can_apply(a, s),
        prim_apply_clean(a, s),
        prim_apply_rel(a, s, res, s2),
    ensures
        prim_revertible(res, s2),
        prim_revert_model(res, s2) == (StateModel { next_id: s2.next_id, ..s }),
{
    match (a, res) {
        (PrimitiveGameAction::DrawCards(_), PrimitiveGameActionResult::DrawCards(cards)) => {
            lemma_draw_round_trip(s.active_player, cards@);
            assert(prim_revert_model(res, s2) =~= (StateModel { next_id: s2.next_id, ..s }));
        },
        (PrimitiveGameAction::MillCards(_), PrimitiveGameActionResult::MillCards(cards)) => {
            lemma_mill_round_trip(s.active_player, cards@);
            assert(prim_revert_model(res, s2) =~= (StateModel { next_id: s2.next_id, ..s }));
        },
        (PrimitiveGameAction::PlayLand(_, _), PrimitiveGameActionResult::PlayLand(id)) => {
            let b2 = s2.active_player.battlefield;
            assert(b2.lands.last().id == id);
            assert(bf_has_land(b2, id));
            assert forall|j: int| 0 <= j < b2.lands.len() && b2.lands[j].id == id implies j
                == b2.lands.len() - 1 by {
                if j < b2.lands.len() - 1 {
                    assert((s.active_player.battlefield.lands[j].id).0 < s.next_id);
                }
            }
            assert(bf_land_ix(b2, id) == b2.lands.len() - 1);
            assert(b2.lands.remove(b2.lands.len() - 1) =~= s.active_player.battlefield.lands);
            assert(bf_remove_land(s2.active_player, id) =~= s.active_player);
            assert(prim_revert_model(res, s2) =~= (StateModel { next_id: s2.next_id, ..s }));
        },
        (
            PrimitiveGameAction::IncreaseLandPlays(_),
            PrimitiveGameActionResult::IncreaseLandPlays(_),
        ) => {
            assert(prim_revert_model(res, s2) =~= (StateModel { next_id: s2.next_id, ..s }));
        },
        (
            PrimitiveGameAction::SearchLibraryToHand(cards),
            PrimitiveGameActionResult::SearchLibraryToHand(_),
        ) => {
            lemma_search_hand_round_trip(s.active_player, cards@);
            assert(prim_revert_model(res, s2) =~= (StateModel { next_id: s2.next_id, ..s }));
        },
        (
            PrimitiveGameAction::SearchLibraryToBattlefield(objects),
            PrimitiveGameActionResult::SearchLibraryToBattlefield(_),
        ) => {
            lemma_search_bf_round_trip(s, objects@);
        },
        (PrimitiveGameAction::Trigger(_), PrimitiveGameActionResult::Trigger) => {
            assert(s2.stack.drop_last() =~= s.stack);
            assert(prim_revert_model(res, s2) =~= (StateModel { next_id: s2.next_id, ..s }));
        },
        _ => {},
    }
}

/// Round trip for a chain: reverting the records last first restores the
/// state the chain started from, except for the mint counter.
pub proof fn lemma_seq_round_trip(
    actions: Seq<PrimitiveGameAction>,
    s: StateModel,
    results: Seq<PrimitiveGameActionResult>,
    s2: StateModel,
)
    requires
        state_wf(s),
        s.next_id + prims_ids_needed(actions) <= usize::MAX,
        s.active_player.battlefield.land_plays + prims_plays_added(actions) <= usize::MAX,
        seq_apply_clean(actions, s, results),
        seq_apply_rel(actions, s, results, s2),
    ensures
        seq_rev_ok(results, s2),
        seq_rev_model(results, s2) == (StateModel { next_id: s2.next_id, ..s }),
    decreases actions.len(),
{
    if actions.len() == 0 {
        assert(seq_rev_model(results, s2) =~= (StateModel { next_id: s2.next_id, ..s }));
    } else {
        let mid = choose|m: StateModel|
            seq_apply_rel(actions.drop_last(), s, results.drop_last(), m) && prim_apply_rel(
                actions.last(),
                m,
                results.last(),
                s2,
            );
        let midc = choose|m: StateModel|
            seq_apply_rel(actions.drop_last(), s, results.drop_last(), m);
        assert(seq_apply_rel(actions.drop_last(), s, results.drop_last(), midc));
        lemma_seq_apply_det(actions.drop_last(), s, results.drop_last(), mid, midc);
        lemma_prims_needs_last(actions);
        assert(prim_ids_needed(actions.last()) >= 0);
        assert(prim_plays_added(actions.last()) >= 0);
        lemma_prims_needs_nonneg(actions.drop_last());
        lemma_seq_apply_wf(actions.drop_last(), s, results.drop_last(), mid);
        lemma_seq_round_trip(actions.drop_last(), s, results.drop_last(), mid);
        lemma_prim_round_trip(actions.last(), mid, results.last(), s2);
        let mid2 = prim_revert_model(results.last(), s2);
        assert(mid2 == (StateModel { next_id: s2.next_id, ..mid }));
        lemma_seq_rev_next_irrelevant(results.drop_last(), mid, s2.next_id);
        assert((StateModel {
            next_id: s2.next_id,
            ..(StateModel { next_id: mid.next_id, ..s })
        }) =~= (StateModel { next_id: s2.next_id, ..s }));
    }
}

/// Round trip: reverting the record an apply returned restores the state
/// the action was applied to — zones, stack, priority, both players —
/// except for the identity mint counter, which stays where the apply left
/// it, since identities are never reused. Holds for every action on every
/// well-formed state whose searches named present, battlefield-fit cards.
pub proof fn lemma_round_trip(a: GameAction, s: StateModel, res: GameActionResult, s2: StateModel)
    requires
        state_wf(s),
        can_apply(a, s),
        apply_clean(a, s, res),
        apply_rel(a, s, res, s2),
    ensures
        action_revertible(res, s2),
        action_revert_model(res, s2) == (StateModel { next_id: s2.next_id, ..s }),
{
    match (a, res) {
        (GameAction::PassPriority, GameActionResult::PassPriority) => {
            assert(action_revert_model(res, s2) =~= (StateModel { next_id: s2.next_id, ..s }));
        },
        (GameAction::Primitive(p), GameActionResult::Primitive(r)) => {
            lemma_prim_round_trip(p, s, r, s2);
        },
        (GameAction::CastSpell(_), GameActionResult::CastSpell) => {
            assert(s2.stack.drop_last() =~= s.stack);
            assert(action_revert_model(res, s2) =~= (StateModel { next_id: s2.next_id, ..s }));
        },
        (GameAction::ActivateAbility { .. }, GameActionResult::ActivateAbility(_)) => {
            assert(s2.stack.drop_last() =~= s.stack);
            assert(action_revert_model(res, s2) =~= (StateModel { next_id: s2.next_id, ..s }));
        },
        (GameAction::Sequence(actions), GameActionResult::Sequence(results)) => {
            lemma_seq_round_trip(actions@, s, results@, s2);
        },
        _ => {},
    }
}

// ---------------------------------------------------------------------------
// Stack discipline
// ---------------------------------------------------------------------------

/// Casting a spell and then activating an ability must be reverted in
/// reverse order: that order leaves the stack exactly as it began, while
/// handing the cast's record to the later state — whose top is the
/// ability, not a spell — is a fault its revert refuses.
pub proof fn lemma_stack_discipline(
    sp: Spell,
    source: GameObjectId,
    target: Option<crate::game_state::Target>,
    s: StateModel,
    r1: GameActionResult,
    s1: StateModel,
    r2: GameActionResult,
    s2: StateModel,
)
    requires
        apply_rel(GameAction::CastSpell(sp), s, r1, s1),
        apply_rel(GameAction::ActivateAbility { source, target }, s1, r2, s2),
    ensures
        action_revertible(r2, s2),
        action_revert_model(r2, s2) == s1,
        action_revertible(r1, s1),
        action_revert_model(r1, s1) == s,
        !action_revertible(r1, s2),
{
    assert(s1.stack.drop_last() =~= s.stack);
    assert(s2.stack.drop_last() =~= s1.stack);
    assert(action_revert_model(r1, s1) =~= s);
    assert(action_revert_model(r2, s2) =~= s1);
    assert(s2.stack.last() matches StackObject::ActivatedAbility { .. });
}

// ---------------------------------------------------------------------------
// Conservation
// ---------------------------------------------------------------------------

/// The total of cards a player holds across library, hand, graveyard and
/// battlefield.
pub open spec fn total_cards(p: PlayerModel) -> int {
    p.library.size + p.hand.lands.len() + p.hand.spells.len() + p.graveyard.lands.len()
        + p.graveyard.spells.len() + p.battlefield.lands.len()
        + p.battlefield.non_lands.len() as int
}

/// Every card is a land or a spell, so the two family counts split a list.
pub proof fn lemma_lands_spells_split(cs: Seq<Card>)
    ensures
        lands_of(cs).len() + spells_of(cs).len() == cs.len(),
    decreases cs.len(),
{
    if cs.len() > 0 {
        lemma_lands_spells_split(cs.drop_last());
    }
}

/// A draw only moves cards from the library to the hand: the player's
/// total is conserved.
pub proof fn lemma_draw_conserves(p: PlayerModel, cs: Seq<Card>)
    requires
        p.library.wf(),
        draws_ok(p, cs),
    ensures
        total_cards(draw_many(p, cs)) == total_cards(p),
{
    lemma_draw_many_facts(p, cs);
    lemma_lands_spells_split(cs);
}

/// A mill only moves cards from the library to the graveyard: the
/// player's total is conserved.
pub proof fn lemma_mill_conserves(p: PlayerModel, cs: Seq<Card>)
    requires
        p.library.wf(),
        mills_ok(p, cs),
    ensures
        total_cards(mill_many(p, cs)) == total_cards(p),
{
    lemma_mill_many_facts(p, cs);
    lemma_lands_spells_split(cs);
}

/// Conservation across an apply/revert pair: reverting restores every
/// zone, so the player's card total is back where it began.
pub proof fn lemma_apply_revert_conserves(
    a: GameAction,
    s: StateModel,
    res: GameActionResult,
    s2: StateModel,
)
    requires
        state_wf(s),
        can_apply(a, s),
        apply_clean(a, s, res),
        apply_rel(a, s, res, s2),
    ensures
        total_cards(action_revert_model(res, s2).active_player) == total_cards(s.active_player),
{
    lemma_round_trip(a, s, res, s2);
}

// ---------------------------------------------------------------------------
// Identity uniqueness
// ---------------------------------------------------------------------------

/// No two live battlefield objects share an identity: the invariant holds
/// before and after any apply, and the mint counter never falls — not
/// even across a revert, which leaves it untouched — so an identity once
/// seen is never minted again.
pub proof fn lemma_identity_uniqueness(
    a: GameAction,
    s: StateModel,
    res: GameActionResult,
    s2: StateModel,
)
    requires
        state_wf(s),
        can_apply(a, s),
        apply_rel(a, s, res, s2),
    ensures
        bf_ids_unique(s2.active_player.battlefield),
        state_wf(s2),
        s.next_id <= s2.next_id,
{
    crate::game_action::lemma_apply_wf(a, s, res, s2);
}

// ---------------------------------------------------------------------------
// Delirium monotonicity
// ---------------------------------------------------------------------------

/// The union of type bits distributes over concatenation.
pub proof fn lemma_union_concat(a: Seq<Card>, b: Seq<Card>)
    ensures
        union_type_bits(a + b) == union_type_bits(a) | union_type_bits(b),
    decreases b.len(),
{
    if b.len() == 0 {
        assert(a + b =~= a);
        let x = union_type_bits(a);
        assert(x | 0 == x) by (bit_vector);
    } else {
        assert((a + b).drop_last() =~= a + b.drop_last());
        assert((a + b).last() == b.last());
        lemma_union_concat(a, b.drop_last());
        let x = union_type_bits(a);
        let y = union_type_bits(b.drop_last());
        let z = crate::cards::card_type_bits(b.last());
        assert((x | y) | z == x | (y | z)) by (bit_vector);
    }
}

/// Adding bits never lowers the count of set type bits.
pub proof fn lemma_type_count_mono(a: u8, b: u8)
    ensures
        type_bit_count(a) <= type_bit_count(a | b),
{
    assert((a & 0x01u8 != 0 ==> (a | b) & 0x01u8 != 0) && (a & 0x02u8 != 0 ==> (a | b) & 0x02u8
        != 0) && (a & 0x04u8 != 0 ==> (a | b) & 0x04u8 != 0) && (a & 0x08u8 != 0 ==> (a | b)
        & 0x08u8 != 0) && (a & 0x10u8 != 0 ==> (a | b) & 0x10u8 != 0) && (a & 0x20u8 != 0 ==> (a
        | b) & 0x20u8 != 0)) by (bit_vector);
    assert(LAND == 0x01u8 && ARTIFACT == 0x02u8 && ENCHANTMENT == 0x04u8 && CREATURE == 0x08u8
        && SORCERY == 0x10u8 && INSTANT == 0x20u8);
}

/// Delirium is monotone: a card added to the graveyard can only turn it
/// from false to true, never the reverse; the union of type bits only
/// grows.
pub proof fn lemma_delirium_monotone(g: GraveyardModel, c: Card)
    ensures
        delirium(g) ==> delirium(graveyard_push(g, c)),
{
    let g2 = graveyard_push(g, c);
    let la = g.lands.map_values(|x: crate::cards::Land| Card::Land(x));
    let sa = g.spells.map_values(|x: Spell| Card::Spell(x));
    lemma_union_concat(la, sa);
    match c {
        Card::Land(l) => {
            let la2 = g2.lands.map_values(|x: crate::cards::Land| Card::Land(x));
            assert(la2 =~= la.push(Card::Land(l)));
            assert(g2.spells =~= g.spells);
            lemma_union_concat(la2, sa);
            assert(la2.drop_last() =~= la);
            assert(union_type_bits(la2) == union_type_bits(la) | crate::cards::card_type_bits(
                Card::Land(l),
            ));
            let ua = union_type_bits(la);
            let ub = union_type_bits(sa);
            let z = crate::cards::card_type_bits(Card::Land(l));
            assert((ua | z) | ub == (ua | ub) | z) by (bit_vector);
            lemma_type_count_mono(ua | ub, z);
        },
        Card::Spell(sp) => {
            let sa2 = g2.spells.map_values(|x: Spell| Card::Spell(x));
            assert(sa2 =~= sa.push(Card::Spell(sp)));
            assert(g2.lands =~= g.lands);
            lemma_union_concat(la, sa2);
            assert(sa2.drop_last() =~= sa);
            assert(union_type_bits(sa2) == union_type_bits(sa) | crate::cards::card_type_bits(
                Card::Spell(sp),
            ));
            let ua = union_type_bits(la);
            let ub = union_type_bits(sa);
            let z = crate::cards::card_type_bits(Card::Spell(sp));
            assert(ua | (ub | z) == (ua | ub) | z) by (bit_vector);
            lemma_type_count_mono(ua | ub, z);
        },
    }
}

} // verus!
