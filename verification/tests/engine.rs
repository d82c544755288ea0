use amulet_sim::cards::{card_index, Card, Instant, Land, NonPermanent, Permanent, Sorcery, Spell};
use amulet_sim::game_action::{
    GameAction, GameActionResult, PrimitiveGameAction, PrimitiveGameActionResult,
};
use amulet_sim::game_state::{
    Battlefield, GameObject, GameObjectId, GameState, Graveyard, Hand, Library, ManaPool, Player,
    PlayerId, Stack, StackObject, TapState, Trigger,
};

fn forest() -> Card {
    Card::Land(Land::Forest)
}

fn pact() -> Card {
    Card::Spell(Spell::NonPermanent(NonPermanent::Instant(Instant::SummonersPact)))
}

fn amulet() -> Card {
    Card::Spell(Spell::Permanent(Permanent::AmuletOfVigor))
}

fn fresh_state(deck: Vec<Card>, seed: u64) -> GameState {
    GameState {
        active_player: Player {
            life_total: 20,
            library: Library::new(deck, seed),
            hand: Hand { lands: vec![], spells: vec![] },
            battlefield: Battlefield { lands: vec![], non_lands: vec![], land_plays: 0 },
            graveyard: Graveyard { spells: vec![], lands: vec![] },
            mana_pool: ManaPool {
                white: 0,
                blue: 0,
                black: 0,
                red: 0,
                green: 0,
                colorless: 0,
            },
        },
        non_active_player: None,
        stack: Stack { objects: vec![] },
        priority: PlayerId::Active,
        next_id: 0,
    }
}

#[test]
fn draw_two_from_three_and_revert_exactly() {
    // A library of two forests and a pact, a fixed seed: drawing two moves
    // exactly two cards to hand and shrinks the library from 3 to 1, and
    // the revert restores the exact per-card counts and the empty hand.
    let mut state = fresh_state(vec![forest(), forest(), pact()], 42);
    let original_counts = state.active_player.library.cards.clone();
    let action = GameAction::Primitive(PrimitiveGameAction::DrawCards(2));
    let result = action.apply(&mut state);
    let in_hand =
        state.active_player.hand.lands.len() + state.active_player.hand.spells.len();
    assert_eq!(in_hand, 2);
    assert_eq!(state.active_player.library.len(), 1);
    assert!(result.revert(&mut state));
    assert_eq!(state.active_player.library.cards, original_counts);
    assert_eq!(state.active_player.library.len(), 3);
    assert!(state.active_player.hand.lands.is_empty());
    assert!(state.active_player.hand.spells.is_empty());
}

#[test]
fn drawing_more_than_the_library_holds_stops_short() {
    let mut state = fresh_state(vec![forest()], 3);
    let result = GameAction::Primitive(PrimitiveGameAction::DrawCards(5)).apply(&mut state);
    match &result {
        GameActionResult::Primitive(PrimitiveGameActionResult::DrawCards(cards)) => {
            assert_eq!(cards.len(), 1);
            assert_eq!(cards[0], forest());
        },
        _ => panic!("unexpected result shape"),
    }
    assert!(state.active_player.library.is_empty());
    assert!(result.revert(&mut state));
    assert_eq!(state.active_player.library.len(), 1);
}

#[test]
fn pass_priority_is_self_inverse() {
    let mut state = fresh_state(vec![], 0);
    let result = GameAction::PassPriority.apply(&mut state);
    assert_eq!(state.priority, PlayerId::NonActive);
    assert!(result.revert(&mut state));
    assert_eq!(state.priority, PlayerId::Active);
}

#[test]
fn play_land_mints_an_id_and_revert_removes_the_object() {
    let mut state = fresh_state(vec![], 0);
    let action =
        GameAction::Primitive(PrimitiveGameAction::PlayLand(Land::Forest, TapState::Untapped));
    let result = action.apply(&mut state);
    assert_eq!(state.active_player.battlefield.lands.len(), 1);
    assert_eq!(state.active_player.battlefield.lands[0].id, GameObjectId(0));
    assert_eq!(state.next_id, 1);
    assert!(result.revert(&mut state));
    assert!(state.active_player.battlefield.lands.is_empty());
    assert_eq!(state.next_id, 1);
}

#[test]
fn identities_are_never_reused_across_undone_branches() {
    let mut state = fresh_state(vec![], 0);
    let action =
        GameAction::Primitive(PrimitiveGameAction::PlayLand(Land::Forest, TapState::Tapped));
    let first = action.apply(&mut state);
    assert!(first.revert(&mut state));
    let _second = action.apply(&mut state);
    assert_eq!(state.active_player.battlefield.lands[0].id, GameObjectId(1));
    assert_eq!(state.next_id, 2);
}

#[test]
fn increase_land_plays_and_saturating_revert() {
    let mut state = fresh_state(vec![], 0);
    let action = GameAction::Primitive(PrimitiveGameAction::IncreaseLandPlays(3));
    let result = action.apply(&mut state);
    assert_eq!(state.active_player.battlefield.land_plays, 3);
    assert!(result.revert(&mut state));
    assert_eq!(state.active_player.battlefield.land_plays, 0);
    // Reverting a second time saturates at zero instead of underflowing.
    assert!(result.revert(&mut state));
    assert_eq!(state.active_player.battlefield.land_plays, 0);
}

#[test]
fn search_to_hand_and_revert_exactly() {
    let mut state = fresh_state(vec![forest(), pact()], 8);
    let original_counts = state.active_player.library.cards.clone();
    let action =
        GameAction::Primitive(PrimitiveGameAction::SearchLibraryToHand(vec![forest()]));
    let result = action.apply(&mut state);
    assert_eq!(state.active_player.hand.lands, vec![Land::Forest]);
    assert_eq!(state.active_player.library.len(), 1);
    assert_eq!(state.active_player.library.cards[card_index(forest())], 0);
    assert!(result.revert(&mut state));
    assert_eq!(state.active_player.library.cards, original_counts);
    assert!(state.active_player.hand.lands.is_empty());
}

#[test]
fn search_to_battlefield_mints_ids_in_order_and_reverts() {
    let mut state = fresh_state(vec![forest(), amulet()], 8);
    let original_counts = state.active_player.library.cards.clone();
    let objects = vec![
        GameObject { permanent: forest(), tap_state: TapState::Untapped },
        GameObject { permanent: amulet(), tap_state: TapState::Tapped },
    ];
    let action =
        GameAction::Primitive(PrimitiveGameAction::SearchLibraryToBattlefield(objects));
    let result = action.apply(&mut state);
    match &result {
        GameActionResult::Primitive(PrimitiveGameActionResult::SearchLibraryToBattlefield(
            ids,
        )) => {
            assert_eq!(ids, &vec![GameObjectId(0), GameObjectId(1)]);
        },
        _ => panic!("unexpected result shape"),
    }
    assert_eq!(state.active_player.battlefield.lands.len(), 1);
    assert_eq!(state.active_player.battlefield.lands[0].object.permanent, Land::Forest);
    assert_eq!(state.active_player.battlefield.non_lands.len(), 1);
    assert_eq!(
        state.active_player.battlefield.non_lands[0].object.tap_state,
        TapState::Tapped
    );
    assert!(state.active_player.library.is_empty());
    assert!(result.revert(&mut state));
    assert_eq!(state.active_player.library.cards, original_counts);
    assert!(state.active_player.battlefield.lands.is_empty());
    assert!(state.active_player.battlefield.non_lands.is_empty());
    assert_eq!(state.next_id, 2);
}

#[test]
fn search_to_battlefield_skips_a_non_permanent_and_mints_no_id() {
    let explore = Card::Spell(Spell::NonPermanent(NonPermanent::Sorcery(Sorcery::Explore)));
    let mut state = fresh_state(vec![explore], 8);
    let objects = vec![GameObject { permanent: explore, tap_state: TapState::Untapped }];
    let result = GameAction::Primitive(PrimitiveGameAction::SearchLibraryToBattlefield(objects))
        .apply(&mut state);
    match &result {
        GameActionResult::Primitive(PrimitiveGameActionResult::SearchLibraryToBattlefield(
            ids,
        )) => {
            assert!(ids.is_empty());
        },
        _ => panic!("unexpected result shape"),
    }
    // The library copy is still taken, as the action's contract states: a
    // non-permanent search entry is not exactly undoable.
    assert!(state.active_player.library.is_empty());
    assert!(state.active_player.battlefield.lands.is_empty());
    assert!(state.active_player.battlefield.non_lands.is_empty());
}

#[test]
fn mill_with_duplicates_reverts_in_lifo_order() {
    let mut state = fresh_state(vec![forest(), forest(), pact()], 21);
    let original_counts = state.active_player.library.cards.clone();
    let action = GameAction::Primitive(PrimitiveGameAction::MillCards(3));
    let result = action.apply(&mut state);
    assert_eq!(
        state.active_player.graveyard.lands.len() + state.active_player.graveyard.spells.len(),
        3
    );
    assert!(state.active_player.library.is_empty());
    assert!(result.revert(&mut state));
    assert_eq!(state.active_player.library.cards, original_counts);
    assert!(state.active_player.graveyard.lands.is_empty());
    assert!(state.active_player.graveyard.spells.is_empty());
}

#[test]
fn sequence_applies_in_order_and_reverts_as_one_unit() {
    let mut state = fresh_state(vec![forest(), forest()], 9);
    let action = GameAction::Sequence(vec![
        PrimitiveGameAction::IncreaseLandPlays(1),
        PrimitiveGameAction::DrawCards(1),
        PrimitiveGameAction::PlayLand(Land::GruulTurf, TapState::Tapped),
    ]);
    let result = action.apply(&mut state);
    assert_eq!(state.active_player.battlefield.land_plays, 1);
    assert_eq!(state.active_player.library.len(), 1);
    assert_eq!(state.active_player.battlefield.lands.len(), 1);
    assert!(result.revert(&mut state));
    assert_eq!(state.active_player.battlefield.land_plays, 0);
    assert_eq!(state.active_player.library.len(), 2);
    assert!(state.active_player.battlefield.lands.is_empty());
    assert!(state.active_player.hand.lands.is_empty());
    assert!(state.active_player.hand.spells.is_empty());
}

#[test]
fn total_cards_are_conserved_across_apply_and_revert() {
    let total = |state: &GameState| {
        let p = &state.active_player;
        p.library.len()
            + p.hand.lands.len()
            + p.hand.spells.len()
            + p.graveyard.lands.len()
            + p.graveyard.spells.len()
            + p.battlefield.lands.len()
            + p.battlefield.non_lands.len()
    };
    let mut state = fresh_state(vec![forest(), forest(), pact(), amulet()], 13);
    assert_eq!(total(&state), 4);
    let draw = GameAction::Primitive(PrimitiveGameAction::DrawCards(2)).apply(&mut state);
    assert_eq!(total(&state), 4);
    let mill = GameAction::Primitive(PrimitiveGameAction::MillCards(1)).apply(&mut state);
    assert_eq!(total(&state), 4);
    assert!(mill.revert(&mut state));
    assert!(draw.revert(&mut state));
    assert_eq!(total(&state), 4);
}

#[test]
fn trigger_pushes_and_pops_the_stack() {
    let mut state = fresh_state(vec![], 0);
    let action =
        GameAction::Primitive(PrimitiveGameAction::Trigger(Trigger::Enters(forest())));
    let result = action.apply(&mut state);
    assert_eq!(state.stack.objects.len(), 1);
    assert!(matches!(state.stack.objects[0], StackObject::Trigger(_)));
    assert!(result.revert(&mut state));
    assert!(state.stack.objects.is_empty());
}

#[test]
fn stack_discipline_reverting_in_reverse_order_empties_the_stack() {
    let mut state = fresh_state(vec![], 0);
    let cast = GameAction::CastSpell(Spell::Permanent(Permanent::PrimevalTitan));
    let r1 = cast.apply(&mut state);
    let ability =
        GameAction::ActivateAbility { source: GameObjectId(7), target: None };
    let r2 = ability.apply(&mut state);
    assert_eq!(state.stack.objects.len(), 2);
    assert!(r2.revert(&mut state));
    assert_eq!(state.stack.objects.len(), 1);
    assert!(r1.revert(&mut state));
    assert!(state.stack.objects.is_empty());
}

#[test]
fn stack_discipline_wrong_order_is_a_fault_not_a_pop() {
    let mut state = fresh_state(vec![], 0);
    let cast = GameAction::CastSpell(Spell::Permanent(Permanent::PrimevalTitan));
    let r1 = cast.apply(&mut state);
    let ability = GameAction::ActivateAbility { source: GameObjectId(7), target: None };
    let _r2 = ability.apply(&mut state);
    // The cast's record against a state whose top is the ability: refused,
    // and nothing is popped.
    assert!(!r1.revert(&mut state));
    assert_eq!(state.stack.objects.len(), 2);
}

#[test]
fn reverting_a_mill_record_against_an_empty_graveyard_is_a_fault() {
    let mut state = fresh_state(vec![], 0);
    let record =
        GameActionResult::Primitive(PrimitiveGameActionResult::MillCards(vec![forest()]));
    assert!(!record.revert(&mut state));
}

#[test]
fn reverting_a_draw_record_against_a_short_hand_is_a_fault() {
    let mut state = fresh_state(vec![], 0);
    let record =
        GameActionResult::Primitive(PrimitiveGameActionResult::DrawCards(vec![forest()]));
    assert!(!record.revert(&mut state));
}

#[test]
fn reverting_a_played_land_that_is_gone_is_a_fault() {
    let mut state = fresh_state(vec![], 0);
    let record =
        GameActionResult::Primitive(PrimitiveGameActionResult::PlayLand(GameObjectId(5)));
    assert!(!record.revert(&mut state));
}

#[test]
fn reverting_a_trigger_record_against_an_empty_stack_is_a_fault() {
    let mut state = fresh_state(vec![], 0);
    let record = GameActionResult::Primitive(PrimitiveGameActionResult::Trigger);
    assert!(!record.revert(&mut state));
}

#[test]
fn reverting_a_sequence_aborts_on_the_first_mismatch() {
    let mut state = fresh_state(vec![], 0);
    let record = GameActionResult::Sequence(vec![
        PrimitiveGameActionResult::IncreaseLandPlays(1),
        PrimitiveGameActionResult::Trigger,
    ]);
    // The trigger record is reverted first and finds an empty stack.
    assert!(!record.revert(&mut state));
    assert_eq!(state.active_player.battlefield.land_plays, 0);
}

#[test]
fn reverting_a_cast_against_an_empty_stack_is_a_fault() {
    let mut state = fresh_state(vec![], 0);
    assert!(!GameActionResult::CastSpell.revert(&mut state));
    assert!(!GameActionResult::ActivateAbility(GameObjectId(0)).revert(&mut state));
}

#[test]
fn next_game_object_id_counts_up() {
    let mut state = fresh_state(vec![], 0);
    assert_eq!(state.next_game_object_id(), GameObjectId(0));
    assert_eq!(state.next_game_object_id(), GameObjectId(1));
    assert_eq!(state.next_id, 2);
}
