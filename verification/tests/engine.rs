use mtg_engine::action::{PlayerAction, PlayerActionCategory};
use mtg_engine::card::CardDescriptor;
use hecs::Entity;
use mtg_engine::components::{Card, Damage, UntilEotEffect};
use mtg_engine::cost::{Cost, CostItem, ManaColor};
use mtg_engine::entity::EntityId;
use mtg_engine::counters::Counter;
use mtg_engine::game::casting::{
    check_payment, check_start, try_finish_casting_spell, try_pay_spell_mana, CastError,
};
use mtg_engine::game::combat::{attackers_valid, AttackError};
use mtg_engine::game::state_based_actions::apply;
use mtg_engine::game::util::advance_with_no_actions;
use mtg_engine::game::{Game, GameOutcome, GameState, LandError, Step};
use mtg_engine::ident::Ident;
use mtg_engine::mana_pool::{Mana, ManaId, ManaPool};
use mtg_engine::object_db::{CardId, ObjectDb};
use mtg_engine::player::PlayerId;
use mtg_engine::pt::{AdjustPtEffect, PtCharacteristic, PtValue, SetPtEffect, SwitchPtEffect};
use mtg_engine::queries::{resolve_pt, QueryCreatures, QueryMaxHandSize, QueryPt};
use mtg_engine::types::{CardSupertype, CardType};
use mtg_engine::zone::ZoneId;

fn card(
    name: &str,
    types: Vec<CardType>,
    supertypes: Vec<CardSupertype>,
    cost: Option<Vec<CostItem>>,
    pt: Option<(i64, i64)>,
) -> CardDescriptor {
    CardDescriptor {
        name: Ident::new(name),
        types,
        supertypes,
        subtypes: Vec::new(),
        mana_cost: cost.map(|items| Cost { items }),
        image: None,
        pt: pt.map(|(power, toughness)| PtCharacteristic::Normal(PtValue::new(power, toughness))),
    }
}

fn catalog() -> ObjectDb {
    ObjectDb::new(vec![
        card("Forest", vec![CardType::Land], vec![CardSupertype::Basic], None, None),
        card(
            "Grizzly Bears",
            vec![CardType::Creature],
            vec![],
            Some(vec![CostItem::GenericMana, CostItem::ColoredMana(ManaColor::Green)]),
            Some((2, 2)),
        ),
        card(
            "Giant Growth",
            vec![CardType::Instant],
            vec![],
            Some(vec![CostItem::ColoredMana(ManaColor::Green)]),
            None,
        ),
        card(
            "Ornithopter",
            vec![CardType::Artifact, CardType::Creature],
            vec![],
            Some(vec![]),
            Some((0, 2)),
        ),
        card(
            "Divination",
            vec![CardType::Sorcery],
            vec![],
            Some(vec![CostItem::GenericMana, CostItem::GenericMana]),
            None,
        ),
        card("Darksteel Ingot", vec![CardType::Artifact], vec![], Some(vec![]), None),
        card(
            "Atarka's Command",
            vec![CardType::Instant],
            vec![],
            Some(vec![CostItem::ColoredMana(ManaColor::Red), CostItem::ColoredMana(ManaColor::Green)]),
            None,
        ),
    ])
}

fn new_game() -> Game {
    Game::new(catalog())
}

fn first_player(game: &Game) -> PlayerId {
    game.players().iter()[0]
}

fn members(game: &Game, zone: ZoneId) -> Vec<EntityId> {
    game.zone(zone).unwrap().members().clone()
}

fn zones_holding(game: &Game, id: EntityId) -> Vec<ZoneId> {
    let mut all = vec![ZoneId::Stack, ZoneId::Battlefield, ZoneId::Exile, ZoneId::Command];
    for player in game.players().iter() {
        all.push(ZoneId::Library(player));
        all.push(ZoneId::Hand(player));
        all.push(ZoneId::Graveyard(player));
    }
    all.into_iter().filter(|zone| members(game, *zone).contains(&id)).collect()
}

fn advance_to(game: &mut Game, step: Step) {
    let mut guard = 0;
    while game.step() != step {
        advance_with_no_actions(game);
        guard += 1;
        assert!(guard < 100);
    }
}

#[test]
fn lib_until_eot_pt_adjust() {
    let mut game = new_game();
    let grizzly_bears = game.object_db().card_id("Grizzly Bears").unwrap();

    let player1 = first_player(&game);
    let bear = game.create_card(grizzly_bears, ZoneId::Battlefield, player1).unwrap();

    let giant_growth = game.world_mut().spawn((
        UntilEotEffect,
        AdjustPtEffect {
            target: bear,
            adjustment: PtValue {
                power: 3,
                toughness: 3,
            },
        },
    ));

    let bear_pt = game.query(QueryPt(bear)).unwrap();
    assert_eq!(bear_pt, PtValue::new(5, 5));

    while game.turn_number() < 2 {
        advance_with_no_actions(&mut game);
    }

    assert!(
        !game.world().contains(giant_growth),
        "Giant Growth was not cleaned up at turn end"
    );
    let bear_pt = game.query(QueryPt(bear)).unwrap();
    assert_eq!(bear_pt, PtValue::new(2, 2));
}

#[test]
fn lib_turns_pass() {
    let mut game = new_game();

    while game.turn_number() < 3 {
        advance_with_no_actions(&mut game);
    }
}

#[test]
fn main_until_eot_pt_adjust() {
    let mut game = new_game();
    let player1 = first_player(&game);
    let bear = game.create_card(CardId(1), ZoneId::Battlefield, player1).unwrap();

    let giant_growth = game.add_adjust_pt_effect(AdjustPtEffect {
        target: bear,
        adjustment: PtValue { power: 3, toughness: 3 },
    });
    assert!(game.end_at_end_of_turn(giant_growth));

    let bear_pt = game.query(QueryPt(bear)).unwrap();
    assert_eq!(bear_pt, PtValue::new(5, 5));

    while game.turn_number() < 2 {
        match game.priority_player() {
            Some(player) => game.do_action(player, PlayerAction::PassPriority),
            None => advance_with_no_actions(&mut game),
        }
    }

    assert!(!game.contains(giant_growth), "Giant Growth was not cleaned up at turn end");
    let bear_pt = game.query(QueryPt(bear)).unwrap();
    assert_eq!(bear_pt, PtValue::new(2, 2));
}

#[test]
fn main_turns_pass() {
    let mut game = new_game();

    while game.turn_number() < 3 {
        match game.priority_player() {
            Some(player) => game.do_action(player, PlayerAction::PassPriority),
            None => advance_with_no_actions(&mut game),
        }
    }
}

#[test]
fn mod_loads() {
    let db = catalog();
    println!("{:?}", db.cards);
}

#[test]
fn card_db_loads() {
    let db = catalog();
    println!("{:?}", db.cards);
    assert_eq!(db.cards.len(), 7);
}

#[test]
fn fresh_game_starts_at_first_upkeep() {
    let game = new_game();
    assert_eq!(game.step(), Step::Upkeep);
    assert_eq!(game.turn_number(), 1);
    assert_eq!(game.active_player(), PlayerId(0));
    assert_eq!(game.priority_player(), Some(PlayerId(0)));
    assert_eq!(
        *game.state(),
        GameState::Player { player: PlayerId(0), action: PlayerActionCategory::Priority }
    );
    assert_eq!(game.players().len(), 2);
    assert!(game.zone(ZoneId::Stack).unwrap().is_empty());
    assert!(game.zone(ZoneId::Library(PlayerId(2))).is_none());
}

#[test]
fn steps_follow_the_order_of_a_turn() {
    let mut game = new_game();
    let mut seen = vec![game.step()];
    let mut turns = vec![(game.turn_number(), game.active_player())];
    while game.turn_number() < 3 {
        let before = game.step();
        advance_with_no_actions(&mut game);
        if game.step() != before {
            seen.push(game.step());
            turns.push((game.turn_number(), game.active_player()));
        }
    }
    let turn = vec![
        Step::Upkeep,
        Step::Draw,
        Step::Main1,
        Step::BeginCombat,
        Step::DeclareAttackers,
        Step::DeclareBlockers,
        Step::CombatDamage,
        Step::EndCombat,
        Step::Main2,
        Step::End,
    ];
    let mut expected = Vec::new();
    for _ in 0..4 {
        expected.extend(turn.iter().cloned());
    }
    expected.push(Step::Upkeep);
    assert_eq!(seen, expected);
    // The first player's turn, the second player's turn, and only then turn two.
    assert_eq!(turns[0], (1, PlayerId(0)));
    assert_eq!(turns[9], (1, PlayerId(0)));
    assert_eq!(turns[10], (1, PlayerId(1)));
    assert_eq!(turns[19], (1, PlayerId(1)));
    assert_eq!(turns[20], (2, PlayerId(0)));
    assert_eq!(turns[30], (2, PlayerId(1)));
    assert_eq!(turns[40], (3, PlayerId(0)));
}

#[test]
fn both_players_must_pass_to_end_a_step() {
    let mut game = new_game();
    game.do_action(PlayerId(1), PlayerAction::PassPriority);
    assert_eq!(game.priority_player(), Some(PlayerId(0)));
    assert_eq!(game.step(), Step::Upkeep);
    game.do_action(PlayerId(0), PlayerAction::PassPriority);
    assert_eq!(game.priority_player(), Some(PlayerId(1)));
    assert_eq!(game.step(), Step::Upkeep);
    game.do_action(PlayerId(1), PlayerAction::PassPriority);
    assert_eq!(game.priority_player(), Some(PlayerId(0)));
    assert_eq!(game.step(), Step::Draw);
    assert_eq!(game.next_step(), Some(Step::Main1));
}

#[test]
fn every_step_has_its_successor() {
    let order = [
        Step::Untap,
        Step::Upkeep,
        Step::Draw,
        Step::Main1,
        Step::BeginCombat,
        Step::DeclareAttackers,
        Step::DeclareBlockers,
        Step::CombatDamage,
        Step::EndCombat,
        Step::Main2,
        Step::End,
        Step::Cleanup,
    ];
    let mut game = new_game();
    for place in 0..order.len() {
        game.step = order[place];
        assert_eq!(game.next_step(), order.get(place + 1).copied());
        game.turn_number = 7;
        game.active_player = PlayerId(1);
        assert_eq!(game.next_step(), order.get(place + 1).copied());
        game.turn_number = 1;
        game.active_player = PlayerId(0);
    }
}

#[test]
fn state_based_actions_can_conclude_the_game() {
    let mut game = new_game();
    game.players.inner[1].life = 0;
    game.give_priority(PlayerId(0));
    assert!(game.players().get(PlayerId(1)).unwrap().has_lost);
    assert_eq!(game.priority_player(), None);
    assert_eq!(*game.state(), GameState::Complete(GameOutcome::Win { winner: PlayerId(0) }));

    let mut other = new_game();
    other.players.inner[0].life = -3;
    other.do_action(PlayerId(0), PlayerAction::PassPriority);
    assert_eq!(*other.state(), GameState::Complete(GameOutcome::Win { winner: PlayerId(1) }));
    assert_eq!(other.step(), Step::Upkeep);

    let mut drawn = new_game();
    drawn.players.inner[0].life = 0;
    drawn.players.inner[1].life = 0;
    drawn.start_priority_round(PlayerId(1));
    assert_eq!(*drawn.state(), GameState::Complete(GameOutcome::Draw));

    let mut going = new_game();
    going.players.inner[0].life = 1;
    going.give_priority(PlayerId(1));
    assert_eq!(going.priority_player(), Some(PlayerId(1)));
}

#[test]
fn noninstant_is_refused_while_stack_holds_a_spell() {
    let mut game = new_game();
    let player = first_player(&game);
    advance_to(&mut game, Step::Main1);
    let growth = game.create_card(CardId(2), ZoneId::Stack, player).unwrap();
    let bear = game.create_card(CardId(1), ZoneId::Hand(player), player).unwrap();
    assert_eq!(
        check_start(&game, player, bear).err(),
        Some(CastError::StackNotEmpty)
    );
    game.do_action(player, PlayerAction::StartCastingSpell { spell: bear });
    assert_eq!(members(&game, ZoneId::Hand(player)), vec![bear]);
    assert_eq!(members(&game, ZoneId::Stack), vec![growth]);
    assert_eq!(game.priority_player(), Some(player));
    // An instant may still be cast.
    let second = game.create_card(CardId(2), ZoneId::Hand(player), player).unwrap();
    game.do_action(player, PlayerAction::StartCastingSpell { spell: second });
    assert_eq!(members(&game, ZoneId::Stack), vec![growth, second]);
    assert_eq!(
        *game.state(),
        GameState::Player { player, action: PlayerActionCategory::SpellManaAbilities }
    );
}

#[test]
fn cost_is_paid_item_by_item_in_order() {
    let mut game = new_game();
    let player = first_player(&game);
    advance_to(&mut game, Step::Main1);
    let spell = game.create_card(CardId(4), ZoneId::Hand(player), player).unwrap();
    game.do_action(player, PlayerAction::StartCastingSpell { spell });
    assert_eq!(members(&game, ZoneId::Stack), vec![spell]);

    // Nothing is paid: the cast cannot be finished, and the item at place 0 is named.
    assert_eq!(try_finish_casting_spell(&mut game, player, spell), Err(CastError::Unpaid));
    game.do_action(player, PlayerAction::PayIncompleteSpellMana { spell, mana: ManaId(1) });
    // Only the first item is paid: the second still stands open.
    assert_eq!(try_finish_casting_spell(&mut game, player, spell), Err(CastError::Unpaid));
    // The same unit cannot pay twice, and a unit that is not there cannot pay.
    assert_eq!(
        try_pay_spell_mana(&mut game, player, spell, ManaId(1)),
        Err(CastError::AlreadySpent)
    );
    assert_eq!(
        try_pay_spell_mana(&mut game, player, spell, ManaId(3)),
        Err(CastError::InvalidMana)
    );
    assert_eq!(game.players().get(player).unwrap().mana_pool.iter().len(), 3);
    game.do_action(player, PlayerAction::PayIncompleteSpellMana { spell, mana: ManaId(2) });
    assert_eq!(
        try_pay_spell_mana(&mut game, player, spell, ManaId(0)),
        Err(CastError::NothingToPay)
    );
    game.do_action(player, PlayerAction::FinishCastingSpell { spell });
    let pool = game.players().get(player).unwrap().mana_pool.iter();
    assert_eq!(pool, vec![(ManaId(0), Mana { color: ManaColor::Green })]);
    assert_eq!(game.players().get(player).unwrap().mana_pool.get(ManaId(1)), None);
    assert_eq!(game.priority_player(), Some(player));
    assert_eq!(members(&game, ZoneId::Stack), vec![spell]);
    // The other player's pool is as it was.
    assert_eq!(game.players().get(PlayerId(1)).unwrap().mana_pool.iter().len(), 3);
}

#[test]
fn payment_goes_to_the_first_unpaid_item() {
    let mut game = new_game();
    let player = first_player(&game);
    let spell = game.create_card(CardId(6), ZoneId::Hand(player), player).unwrap();
    game.do_action(player, PlayerAction::StartCastingSpell { spell });
    // Green would pay the second item, but the first is the one that is due.
    assert_eq!(try_pay_spell_mana(&mut game, player, spell, ManaId(0)), Err(CastError::WrongMana));
    game.do_action(player, PlayerAction::PayIncompleteSpellMana { spell, mana: ManaId(0) });
    assert_eq!(try_finish_casting_spell(&mut game, player, spell), Err(CastError::Unpaid));
    assert_eq!(try_pay_spell_mana(&mut game, player, spell, ManaId(1)), Ok(()));
    assert_eq!(try_pay_spell_mana(&mut game, player, spell, ManaId(1)), Err(CastError::AlreadySpent));
    assert_eq!(try_pay_spell_mana(&mut game, player, spell, ManaId(2)), Ok(()));
    assert_eq!(try_finish_casting_spell(&mut game, player, spell), Ok(()));
    assert_eq!(
        game.players().get(player).unwrap().mana_pool.iter(),
        vec![(ManaId(0), Mana { color: ManaColor::Green })]
    );
}

#[test]
fn wrong_color_does_not_pay() {
    let mut game = new_game();
    let player = first_player(&game);
    let spell = game.create_card(CardId(2), ZoneId::Hand(player), player).unwrap();
    game.do_action(player, PlayerAction::StartCastingSpell { spell });
    assert_eq!(try_pay_spell_mana(&mut game, player, spell, ManaId(1)), Err(CastError::WrongMana));
    assert_eq!(
        try_pay_spell_mana(&mut game, PlayerId(1), spell, ManaId(0)),
        Err(CastError::NotController)
    );
    assert_eq!(
        try_pay_spell_mana(&mut game, PlayerId(9), spell, ManaId(0)),
        Err(CastError::InvalidPlayer)
    );
    assert_eq!(
        try_pay_spell_mana(&mut game, player, EntityId(0), ManaId(0)),
        Err(CastError::NotAnObject)
    );
    assert_eq!(try_pay_spell_mana(&mut game, player, spell, ManaId(0)), Ok(()));
}

#[test]
fn each_reason_to_refuse_a_cast() {
    let mut game = new_game();
    let player = first_player(&game);
    let bear = game.create_card(CardId(1), ZoneId::Hand(player), player).unwrap();
    let forest = game.create_card(CardId(0), ZoneId::Hand(player), player).unwrap();
    let far = game.create_card(CardId(2), ZoneId::Graveyard(player), player).unwrap();
    let effect = game.add_switch_pt_effect(SwitchPtEffect { target: bear });
    assert_eq!(check_start(&game, player, effect).err(), Some(CastError::NotAnObject));
    assert_eq!(check_start(&game, PlayerId(1), bear).err(), Some(CastError::NoPriority));
    assert_eq!(check_start(&game, player, bear).err(), Some(CastError::NotMainPhase));
    assert_eq!(check_start(&game, player, far).err(), Some(CastError::NotInHand));
    advance_to(&mut game, Step::Main1);
    assert_eq!(check_start(&game, player, forest).err(), Some(CastError::NoManaCost));
    assert_eq!(check_start(&game, player, bear).unwrap().items.len(), 2);
    assert_eq!(
        try_pay_spell_mana(&mut game, player, bear, ManaId(0)),
        Err(CastError::NotIncomplete)
    );
    // A refused start leaves the card where it was.
    game.do_action(player, PlayerAction::StartCastingSpell { spell: forest });
    assert_eq!(members(&game, ZoneId::Hand(player)), vec![bear, forest]);
    assert!(members(&game, ZoneId::Stack).is_empty());
}

#[test]
fn cancelled_cast_returns_the_card() {
    let mut game = new_game();
    let player = first_player(&game);
    advance_to(&mut game, Step::Main1);
    let other = game.create_card(CardId(0), ZoneId::Hand(player), player).unwrap();
    let bear = game.create_card(CardId(1), ZoneId::Hand(player), player).unwrap();
    game.do_action(player, PlayerAction::StartCastingSpell { spell: bear });
    assert_eq!(members(&game, ZoneId::Stack), vec![bear]);
    assert_eq!(members(&game, ZoneId::Hand(player)), vec![other]);
    game.do_action(player, PlayerAction::CancelCastingSpell { spell: bear });
    assert!(members(&game, ZoneId::Stack).is_empty());
    assert_eq!(members(&game, ZoneId::Hand(player)), vec![other, bear]);
    // Cancelling again finds nothing to cancel.
    game.do_action(player, PlayerAction::CancelCastingSpell { spell: bear });
    assert_eq!(members(&game, ZoneId::Hand(player)), vec![other, bear]);
}

#[test]
fn tapped_attacker_voids_the_declaration() {
    let mut game = new_game();
    let player = first_player(&game);
    let first = game.create_card(CardId(1), ZoneId::Battlefield, player).unwrap();
    let second = game.create_card(CardId(1), ZoneId::Battlefield, player).unwrap();
    let third = game.create_card(CardId(3), ZoneId::Battlefield, player).unwrap();
    advance_to(&mut game, Step::DeclareAttackers);
    game.do_action(player, PlayerAction::ChooseAttackers { attackers: vec![second] });
    assert_eq!(game.step(), Step::DeclareAttackers);
    assert_eq!(game.priority_player(), Some(player));
    // The second bear is tapped now. Take the game to the next declaration.
    while game.turn_number() < 2 {
        advance_with_no_actions(&mut game);
    }
    advance_to(&mut game, Step::DeclareAttackers);
    assert_eq!(
        attackers_valid(&game, player, &vec![first, second, third]),
        Err(AttackError::Tapped(second))
    );
    let waiting = *game.state();
    game.do_action(player, PlayerAction::ChooseAttackers { attackers: vec![first, second, third] });
    assert_eq!(*game.state(), waiting);
    assert_eq!(attackers_valid(&game, player, &vec![first, third]), Ok(()));
    game.do_action(player, PlayerAction::ChooseAttackers { attackers: vec![first, third] });
    assert_eq!(game.priority_player(), Some(player));
    assert_eq!(attackers_valid(&game, player, &vec![first]), Err(AttackError::Tapped(first)));
    assert_eq!(attackers_valid(&game, player, &vec![third]), Err(AttackError::Tapped(third)));
}

#[test]
fn each_reason_to_refuse_an_attacker() {
    let mut game = new_game();
    let player = first_player(&game);
    let bear = game.create_card(CardId(1), ZoneId::Battlefield, player).unwrap();
    let theirs = game.create_card(CardId(1), ZoneId::Battlefield, PlayerId(1)).unwrap();
    let in_hand = game.create_card(CardId(1), ZoneId::Stack, player).unwrap();
    let forest = game.create_card(CardId(0), ZoneId::Battlefield, player).unwrap();
    let effect = game.add_switch_pt_effect(SwitchPtEffect { target: bear });
    let gone = EntityId(0);
    assert_eq!(attackers_valid(&game, player, &vec![]), Ok(()));
    assert_eq!(attackers_valid(&game, player, &vec![bear]), Ok(()));
    assert_eq!(attackers_valid(&game, player, &vec![bear, gone]), Err(AttackError::NoSuchEntity(gone)));
    assert_eq!(attackers_valid(&game, player, &vec![effect]), Err(AttackError::NotAnObject(effect)));
    assert_eq!(attackers_valid(&game, player, &vec![theirs]), Err(AttackError::NotControlled(theirs)));
    assert_eq!(attackers_valid(&game, player, &vec![in_hand]), Err(AttackError::NotPermanent(in_hand)));
    assert_eq!(attackers_valid(&game, player, &vec![forest, theirs]), Err(AttackError::NotCreature(forest)));
}

#[test]
fn declarations_out_of_turn_are_ignored() {
    let mut game = new_game();
    let player = first_player(&game);
    let bear = game.create_card(CardId(1), ZoneId::Battlefield, player).unwrap();
    game.do_action(player, PlayerAction::ChooseAttackers { attackers: vec![bear] });
    assert_eq!(game.step(), Step::Upkeep);
    assert_eq!(game.priority_player(), Some(player));
    advance_to(&mut game, Step::DeclareAttackers);
    game.do_action(PlayerId(1), PlayerAction::ChooseAttackers { attackers: vec![] });
    game.do_action(player, PlayerAction::ChooseBlockers { blockers: vec![] });
    assert_eq!(
        *game.state(),
        GameState::Player { player, action: PlayerActionCategory::ChooseAttackers }
    );
    advance_to(&mut game, Step::DeclareBlockers);
    assert_eq!(
        *game.state(),
        GameState::Player { player: PlayerId(1), action: PlayerActionCategory::ChooseBlockers }
    );
    game.do_action(PlayerId(1), PlayerAction::ChooseBlockers { blockers: vec![bear] });
    assert_eq!(game.priority_player(), Some(player));
}

#[test]
fn second_run_of_state_based_actions_changes_nothing() {
    let mut game = new_game();
    let player = first_player(&game);
    let bear = game.create_card(CardId(1), ZoneId::Battlefield, player).unwrap();
    let anchor = game.add_switch_pt_effect(SwitchPtEffect { target: bear });
    let aura = game.add_adjust_pt_effect(AdjustPtEffect {
        target: bear,
        adjustment: PtValue::new(1, 1),
    });
    let rider = game.add_adjust_pt_effect(AdjustPtEffect {
        target: bear,
        adjustment: PtValue::new(1, 0),
    });
    assert!(game.attach_to_entity(aura, anchor));
    assert!(game.attach_to_entity(rider, aura));
    assert!(!game.attach_to_entity(EntityId(0), anchor));
    game.players.inner[1].life = 0;
    assert!(game.end_at_end_of_turn(anchor));
    game.clean_up();
    assert!(!game.contains(anchor));
    // One pass takes the aura and marks the player; the rider goes with the next.
    assert!(apply(&mut game));
    assert!(!game.contains(aura));
    assert!(game.contains(rider));
    assert!(game.players().get(PlayerId(1)).unwrap().has_lost);
    assert!(!game.players().get(PlayerId(0)).unwrap().has_lost);
    game.apply_state_based_actions();
    assert!(!game.contains(rider));
    assert!(game.contains(bear));
    assert!(!apply(&mut game));
    game.apply_state_based_actions();
    assert!(!apply(&mut game));
    assert_eq!(game.query(QueryPt(bear)), Some(PtValue::new(2, 2)));
}

#[test]
fn moved_object_is_in_one_zone() {
    let mut game = new_game();
    let player = first_player(&game);
    let forest = game.create_card(CardId(0), ZoneId::Hand(player), player).unwrap();
    let bear = game.create_card(CardId(1), ZoneId::Hand(player), player).unwrap();
    assert_eq!(zones_holding(&game, bear), vec![ZoneId::Hand(player)]);
    assert_eq!(game.move_object_to_zone(bear, ZoneId::Battlefield), Some(()));
    assert_eq!(zones_holding(&game, bear), vec![ZoneId::Battlefield]);
    assert_eq!(members(&game, ZoneId::Hand(player)), vec![forest]);
    assert_eq!(game.query(QueryCreatures), vec![bear]);
    // Moving to the zone it is in, or to a zone that is not there, changes nothing.
    assert_eq!(game.move_object_to_zone(bear, ZoneId::Battlefield), Some(()));
    assert_eq!(game.move_object_to_zone(bear, ZoneId::Library(PlayerId(5))), None);
    assert_eq!(game.move_object_to_zone(EntityId(12345), ZoneId::Exile), None);
    assert_eq!(zones_holding(&game, bear), vec![ZoneId::Battlefield]);
    assert_eq!(game.move_object_to_zone(bear, ZoneId::Graveyard(player)), Some(()));
    assert_eq!(zones_holding(&game, bear), vec![ZoneId::Graveyard(player)]);
    assert_eq!(game.query(QueryCreatures), Vec::<EntityId>::new());
    assert_eq!(game.query(QueryPt(bear)), None);
    assert_eq!(game.move_object_to_zone(forest, ZoneId::Graveyard(player)), Some(()));
    assert_eq!(members(&game, ZoneId::Graveyard(player)), vec![bear, forest]);
    assert!(members(&game, ZoneId::Hand(player)).is_empty());
}

#[test]
fn cards_are_made_only_where_they_can_be() {
    let mut game = new_game();
    let player = first_player(&game);
    assert_eq!(game.create_card(CardId(7), ZoneId::Exile, player), None);
    assert_eq!(game.create_card(CardId(1), ZoneId::Hand(PlayerId(2)), player), None);
    let bear = game.create_card(CardId(1), ZoneId::Exile, player).unwrap();
    assert!(game.contains(bear));
    assert_eq!(members(&game, ZoneId::Exile), vec![bear]);
    assert_eq!(game.query(QueryPt(bear)), None);
    assert_eq!(game.query(QueryMaxHandSize(player)), 7);
}

#[test]
fn layers_apply_in_order() {
    let mut game = new_game();
    let player = first_player(&game);
    let bear = game.create_card(CardId(1), ZoneId::Battlefield, player).unwrap();
    let other = game.create_card(CardId(3), ZoneId::Battlefield, player).unwrap();
    game.add_adjust_pt_effect(AdjustPtEffect { target: bear, adjustment: PtValue::new(3, 1) });
    game.add_set_pt_effect(SetPtEffect { target: bear, value: PtValue::new(0, 1) });
    game.add_adjust_pt_effect(AdjustPtEffect { target: other, adjustment: PtValue::new(7, 7) });
    assert_eq!(game.query(QueryPt(bear)), Some(PtValue::new(3, 2)));
    assert!(game.set_counters(
        bear,
        vec![
            Counter::Pt(PtValue::new(1, 1)),
            Counter::Loyalty(4),
            Counter::Pt(PtValue::new(-2, 0)),
        ]
    ));
    assert_eq!(game.query(QueryPt(bear)), Some(PtValue::new(2, 3)));
    let switch = game.add_switch_pt_effect(SwitchPtEffect { target: bear });
    assert_eq!(game.query(QueryPt(bear)), Some(PtValue::new(3, 2)));
    game.add_switch_pt_effect(SwitchPtEffect { target: bear });
    assert_eq!(game.query(QueryPt(bear)), Some(PtValue::new(2, 3)));
    assert_eq!(game.query(QueryPt(other)), Some(PtValue::new(7, 9)));
    assert_eq!(game.query(QueryPt(switch)), None);
    let mut both = game.query(QueryCreatures);
    both.sort_by_key(|id| id.to_bits());
    let mut expected = vec![bear, other];
    expected.sort_by_key(|id| id.to_bits());
    assert_eq!(both, expected);
}

#[test]
fn resolve_pt_on_given_lists() {
    let me = EntityId(7);
    let you = EntityId(8);
    let e = EntityId(1);
    let sets = vec![
        (e, SetPtEffect { target: me, value: PtValue::new(1, 1) }),
        (e, SetPtEffect { target: me, value: PtValue::new(4, 5) }),
        (e, SetPtEffect { target: you, value: PtValue::new(9, 9) }),
    ];
    let adjusts = vec![
        (e, AdjustPtEffect { target: me, adjustment: PtValue::new(1, 2) }),
        (e, AdjustPtEffect { target: you, adjustment: PtValue::new(50, 50) }),
        (e, AdjustPtEffect { target: me, adjustment: PtValue::new(-3, 0) }),
    ];
    let counters = vec![Counter::Pt(PtValue::new(10, 20)), Counter::Poison(3)];
    let switches = vec![(e, SwitchPtEffect { target: me })];
    assert_eq!(
        resolve_pt(PtValue::new(2, 2), &sets, &adjusts, &counters, &switches, me),
        PtValue::new(27, 12)
    );
    assert_eq!(
        resolve_pt(PtValue::new(2, 2), &vec![], &vec![], &vec![], &vec![], me),
        PtValue::new(2, 2)
    );
    let big = vec![(e, AdjustPtEffect { target: me, adjustment: PtValue::new(i64::MAX, 0) })];
    assert_eq!(
        resolve_pt(PtValue::new(1, 0), &vec![], &big, &vec![], &vec![], me),
        PtValue::new(i64::MIN, 0)
    );
}

#[test]
fn cleanup_takes_damage_and_passing_effects() {
    let mut game = new_game();
    let player = first_player(&game);
    let bear = game.create_card(CardId(1), ZoneId::Battlefield, player).unwrap();
    let lasting = game.add_adjust_pt_effect(AdjustPtEffect {
        target: bear,
        adjustment: PtValue::new(1, 1),
    });
    let passing = game.add_adjust_pt_effect(AdjustPtEffect {
        target: bear,
        adjustment: PtValue::new(3, 3),
    });
    assert!(game.end_at_end_of_turn(passing));
    assert!(!game.end_at_end_of_turn(EntityId(0)));
    assert!(game.mark_damage(bear, 1));
    assert!(!game.mark_damage(EntityId(0), 1));
    assert_eq!(game.query(QueryPt(bear)), Some(PtValue::new(6, 6)));
    let in_store = Entity::from_bits(bear.to_bits()).unwrap();
    assert_eq!(game.world().get::<&Damage>(in_store).map(|damage| damage.amount).ok(), Some(1));
    assert_eq!(game.world().get::<&Card>(in_store).map(|card| card.id).ok(), Some(CardId(1)));
    game.clean_up();
    assert!(game.world().get::<&Damage>(in_store).is_err());
    assert!(game.world().get::<&Card>(in_store).is_ok());
    assert!(game.contains(bear));
    assert!(game.contains(lasting));
    assert!(!game.contains(passing));
    assert_eq!(game.query(QueryPt(bear)), Some(PtValue::new(3, 3)));
    assert_eq!(members(&game, ZoneId::Battlefield), vec![bear]);
}

#[test]
fn conceding_ends_the_game() {
    let mut game = new_game();
    game.do_action(PlayerId(0), PlayerAction::Concede);
    assert_eq!(*game.state(), GameState::Complete(GameOutcome::Win { winner: PlayerId(1) }));
    assert_eq!(game.priority_player(), None);
    game.do_action(PlayerId(1), PlayerAction::PassPriority);
    advance_with_no_actions(&mut game);
    assert_eq!(*game.state(), GameState::Complete(GameOutcome::Win { winner: PlayerId(1) }));
    let mut other = new_game();
    other.do_action(PlayerId(1), PlayerAction::Concede);
    assert_eq!(*other.state(), GameState::Complete(GameOutcome::Win { winner: PlayerId(0) }));
    other.give_priority(PlayerId(0));
    assert_eq!(*other.state(), GameState::Complete(GameOutcome::Win { winner: PlayerId(0) }));
}

#[test]
fn one_land_a_turn() {
    let mut game = new_game();
    let player = first_player(&game);
    let first = game.create_card(CardId(0), ZoneId::Hand(player), player).unwrap();
    let second = game.create_card(CardId(0), ZoneId::Hand(player), player).unwrap();
    assert_eq!(game.try_play_land(PlayerId(1), first), Err(LandError::NotTheirTurn));
    assert_eq!(game.try_play_land(player, first), Err(LandError::NotMainPhase));
    advance_to(&mut game, Step::Main1);
    let spell = game.create_card(CardId(2), ZoneId::Stack, player).unwrap();
    assert_eq!(game.try_play_land(player, first), Err(LandError::StackNotEmpty));
    assert_eq!(game.move_object_to_zone(spell, ZoneId::Exile), Some(()));
    game.do_action(player, PlayerAction::PlayLand { card: first });
    assert_eq!(members(&game, ZoneId::Battlefield), vec![first]);
    assert_eq!(game.players().get(player).unwrap().lands_played_this_turn, 1);
    assert_eq!(game.try_play_land(player, second), Err(LandError::AlreadyPlayed));
    game.do_action(player, PlayerAction::PassPriority);
    assert_eq!(game.try_play_land(player, second), Err(LandError::NoPriority));
    assert_eq!(members(&game, ZoneId::Hand(player)), vec![second]);
    while game.turn_number() < 2 {
        advance_with_no_actions(&mut game);
    }
    assert_eq!(game.players().get(player).unwrap().lands_played_this_turn, 0);
}

#[test]
fn top_of_the_stack_resolves_when_all_pass() {
    let mut game = new_game();
    let player = first_player(&game);
    advance_to(&mut game, Step::Main1);
    let bear = game.create_card(CardId(1), ZoneId::Hand(player), player).unwrap();
    let growth = game.create_card(CardId(2), ZoneId::Hand(player), player).unwrap();
    game.do_action(player, PlayerAction::StartCastingSpell { spell: bear });
    game.do_action(player, PlayerAction::PayIncompleteSpellMana { spell: bear, mana: ManaId(1) });
    game.do_action(player, PlayerAction::PayIncompleteSpellMana { spell: bear, mana: ManaId(0) });
    game.do_action(player, PlayerAction::FinishCastingSpell { spell: bear });
    game.do_action(player, PlayerAction::StartCastingSpell { spell: growth });
    // The units that paid for the bear are gone; the third keeps its handle.
    game.do_action(player, PlayerAction::PayIncompleteSpellMana { spell: growth, mana: ManaId(0) });
    assert_eq!(try_finish_casting_spell(&mut game, player, growth), Err(CastError::Unpaid));
    game.do_action(player, PlayerAction::PayIncompleteSpellMana { spell: growth, mana: ManaId(2) });
    game.do_action(player, PlayerAction::FinishCastingSpell { spell: growth });
    assert_eq!(members(&game, ZoneId::Stack), vec![bear, growth]);
    assert!(game.players().get(player).unwrap().mana_pool.is_empty());
    game.do_action(player, PlayerAction::PassPriority);
    game.do_action(PlayerId(1), PlayerAction::PassPriority);
    // The instant was on top: it goes to its owner's graveyard.
    assert_eq!(members(&game, ZoneId::Stack), vec![bear]);
    assert_eq!(members(&game, ZoneId::Graveyard(player)), vec![growth]);
    assert_eq!(game.step(), Step::Main1);
    assert_eq!(game.priority_player(), Some(player));
    game.do_action(player, PlayerAction::PassPriority);
    game.do_action(PlayerId(1), PlayerAction::PassPriority);
    assert!(members(&game, ZoneId::Stack).is_empty());
    assert_eq!(members(&game, ZoneId::Battlefield), vec![bear]);
    assert_eq!(game.query(QueryPt(bear)), Some(PtValue::new(2, 2)));
    assert_eq!(game.step(), Step::Main1);
}

#[test]
fn library_can_be_shuffled_in_place() {
    let mut game = new_game();
    let player = first_player(&game);
    let mut made = Vec::new();
    for _ in 0..30 {
        made.push(game.create_card(CardId(0), ZoneId::Library(player), player).unwrap());
    }
    assert_eq!(members(&game, ZoneId::Library(player)), made);
    assert!(game.shuffle_zone(ZoneId::Library(player)));
    assert!(!game.shuffle_zone(ZoneId::Library(PlayerId(3))));
    game.zone_mut(ZoneId::Library(player)).unwrap().shuffle();
    assert!(game.zone_mut(ZoneId::Hand(PlayerId(3))).is_none());
    let mut after = members(&game, ZoneId::Library(player));
    after.sort_by_key(|id| id.to_bits());
    made.sort_by_key(|id| id.to_bits());
    assert_eq!(after, made);
    assert!(members(&game, ZoneId::Hand(player)).is_empty());
}

#[test]
fn index_is_rebuilt_from_the_objects() {
    let mut game = new_game();
    let player = first_player(&game);
    let bear = game.create_card(CardId(1), ZoneId::Battlefield, player).unwrap();
    let forest = game.create_card(CardId(0), ZoneId::Hand(player), player).unwrap();
    game.add_switch_pt_effect(SwitchPtEffect { target: bear });
    game.zone_mut(ZoneId::Battlefield).unwrap().clear();
    game.zone_mut(ZoneId::Exile).unwrap().add(forest);
    game.rebuild_zone_index();
    assert_eq!(zones_holding(&game, bear), vec![ZoneId::Battlefield]);
    assert_eq!(zones_holding(&game, forest), vec![ZoneId::Hand(player)]);
    assert_eq!(members(&game, ZoneId::Battlefield), vec![bear]);
    assert!(members(&game, ZoneId::Exile).is_empty());
}

#[test]
fn payments_are_checked_item_by_item() {
    let mut pool = ManaPool::new();
    pool.add(Mana { color: ManaColor::Green });
    pool.add(Mana { color: ManaColor::Red });
    let cost = vec![CostItem::ColoredMana(ManaColor::Red), CostItem::GenericMana];
    assert_eq!(check_payment(&cost, &vec![ManaId(1), ManaId(0)], &pool), Ok(()));
    assert_eq!(check_payment(&cost, &vec![ManaId(1), ManaId(0), ManaId(7)], &pool), Ok(()));
    assert_eq!(check_payment(&vec![], &vec![], &pool), Ok(()));
    assert_eq!(check_payment(&cost, &vec![], &pool), Err(CastError::Unpaid));
    assert_eq!(check_payment(&cost, &vec![ManaId(1)], &pool), Err(CastError::Unpaid));
    assert_eq!(check_payment(&cost, &vec![ManaId(1), ManaId(1)], &pool), Err(CastError::AlreadySpent));
    assert_eq!(check_payment(&cost, &vec![ManaId(1), ManaId(2)], &pool), Err(CastError::InvalidMana));
    assert_eq!(check_payment(&cost, &vec![ManaId(0), ManaId(1)], &pool), Err(CastError::WrongMana));
    // The first item at fault decides.
    assert_eq!(check_payment(&cost, &vec![ManaId(0), ManaId(0)], &pool), Err(CastError::WrongMana));
}

#[test]
fn permanent_spells_resolve_to_the_battlefield() {
    let mut game = new_game();
    let player = first_player(&game);
    let sorcery = game.create_card(CardId(4), ZoneId::Stack, player).unwrap();
    let land = game.create_card(CardId(0), ZoneId::Stack, player).unwrap();
    let artifact = game.create_card(CardId(5), ZoneId::Stack, player).unwrap();
    game.resolve_one_from_stack();
    assert_eq!(members(&game, ZoneId::Battlefield), vec![artifact]);
    game.resolve_one_from_stack();
    assert_eq!(members(&game, ZoneId::Battlefield), vec![artifact, land]);
    game.resolve_one_from_stack();
    assert_eq!(members(&game, ZoneId::Graveyard(player)), vec![sorcery]);
    assert!(members(&game, ZoneId::Stack).is_empty());
    game.resolve_one_from_stack();
    assert_eq!(members(&game, ZoneId::Battlefield), vec![artifact, land]);
    assert_eq!(game.priority_player(), Some(player));
}

#[test]
fn objects_that_go_leave_their_zones() {
    let mut game = new_game();
    let player = first_player(&game);
    let bear = game.create_card(CardId(1), ZoneId::Battlefield, player).unwrap();
    let token = game.create_card(CardId(1), ZoneId::Battlefield, player).unwrap();
    let aura = game.create_card(CardId(3), ZoneId::Battlefield, player).unwrap();
    let rider = game.create_card(CardId(5), ZoneId::Battlefield, player).unwrap();
    let staying = game.create_card(CardId(0), ZoneId::Battlefield, player).unwrap();
    assert!(game.end_at_end_of_turn(token));
    assert!(game.attach_to_entity(aura, token));
    assert!(game.attach_to_entity(rider, aura));
    assert!(game.attach_to_entity(staying, bear));
    game.apply_state_based_actions();
    assert_eq!(members(&game, ZoneId::Battlefield), vec![bear, token, aura, rider, staying]);
    game.clean_up();
    assert!(!game.contains(token));
    assert_eq!(members(&game, ZoneId::Battlefield), vec![bear, aura, rider, staying]);
    assert!(apply(&mut game));
    assert_eq!(members(&game, ZoneId::Battlefield), vec![bear, rider, staying]);
    game.give_priority(player);
    assert!(!game.contains(aura));
    assert!(!game.contains(rider));
    assert_eq!(members(&game, ZoneId::Battlefield), vec![bear, staying]);
    assert_eq!(zones_holding(&game, rider), Vec::<ZoneId>::new());
    assert_eq!(game.query(QueryCreatures), vec![bear]);
    assert!(game.despawn(bear));
    assert!(!game.despawn(bear));
    assert_eq!(members(&game, ZoneId::Battlefield), vec![staying]);
    game.give_priority(player);
    assert!(members(&game, ZoneId::Battlefield).is_empty());
    assert_eq!(game.priority_player(), Some(player));
}

#[test]
fn timestamps_count_up() {
    let mut game = new_game();
    assert_eq!(game.timestamp(), 0);
    assert_eq!(game.timestamp(), 1);
    assert_eq!(game.timestamp(), 2);
}
