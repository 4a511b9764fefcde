use radbot::cards::Cards;
use radbot::radlands::camps::{get_camp_types, CampType};
use radbot::radlands::choices::Choice;
use radbot::radlands::events::EventType;
use radbot::radlands::game::{max_initial_cards_of, Game};
use radbot::radlands::abilities::{icon_ability, Ability, CustomAbility};
use radbot::radlands::locations::{CardLocation, CardRowIndex, ColumnIndex, Player, PersonRowIndex, PlayLocation};
use radbot::radlands::people::{get_person_types, PersonType};
use radbot::radlands::player_state::{CampStatus, NonPunkStatus, Person, PlayerState};
use radbot::radlands::{Action, GameResult, GameState, IconEffect, PersonOrEventType};

/// A deck of `n` person cards, cycling through the person types.
fn make_deck(n: usize) -> Vec<PersonOrEventType> {
    let types = get_person_types();
    (0..n).map(|i| PersonOrEventType::Person(types[i % types.len()])).collect()
}

/// The cards in the game state: deck, discard pile, hands, people and events on the boards.
fn cards_in_state(gs: &GameState) -> usize {
    let board = |ps: &PlayerState| {
        let people = ps
            .columns
            .iter()
            .flat_map(|c| c.person_slots.iter())
            .filter(|s| matches!(s, Some(Person::NonPunk { .. })))
            .count();
        let events = ps.events.iter().filter(|e| **e == Some(EventType::Strafe)).count();
        people + events
    };
    gs.deck.len()
        + gs.discard.len()
        + gs.player1.hand.count()
        + gs.player2.hand.count()
        + board(&gs.player1)
        + board(&gs.player2)
}

fn held_by(game: &Game) -> usize {
    match game.choice() {
        Some(Choice::PlayLoc(c)) => match c.person() {
            Person::NonPunk { .. } => 1,
            Person::Punk { .. } => 0,
        },
        _ => 0,
    }
}

/// A small deterministic pseudo-random sequence.
struct Lcg(u64);

impl Lcg {
    fn next(&mut self, bound: usize) -> usize {
        self.0 = self.0.wrapping_mul(6364136223846793005).wrapping_add(1442695040888963407);
        ((self.0 >> 33) as usize) % bound
    }
}

fn end_turn_index(game: &Game) -> usize {
    match game.choice() {
        Some(Choice::Action(c)) => {
            let actions = c.actions();
            assert_eq!(*actions.last().unwrap(), Action::EndTurn);
            actions.len() - 1
        },
        _ => panic!("expected a choice of actions"),
    }
}

#[test]
fn game_setup_deals_hands_and_water() {
    let camps = get_camp_types();
    let game = Game::from_setup(make_deck(20), &camps, Player::Player1);
    let gs = game.state();
    assert_eq!(gs.cur_player, Player::Player1);
    assert_eq!(gs.cur_player_water, 1);
    // Outpost, Railgun and Victory Totem give 2 cards, and player 1 draws for their turn
    assert_eq!(gs.player1.hand.count(), 3);
    // Scud Launcher, Cannon and Garage give 1 card
    assert_eq!(gs.player2.hand.count(), 1);
    assert_eq!(gs.deck.len(), 16);
    assert_eq!(cards_in_state(gs), 20);
    assert_eq!(gs.player1.columns[0].camp.camp_type, CampType::Outpost);
    assert_eq!(gs.player2.columns[2].camp.camp_type, CampType::Garage);
    match game.choice() {
        Some(Choice::Action(c)) => {
            assert!(!c.actions().contains(&Action::DrawCard));
            assert_eq!(*c.actions().last().unwrap(), Action::EndTurn);
        },
        _ => panic!("expected a choice of actions"),
    }
    assert_eq!(game.chooser(), Some(Player::Player1));
    assert!(game.result().is_none());
}

#[test]
fn game_end_turn_passes_turn_and_takes_water_silo() {
    let camps = get_camp_types();
    let game = Game::from_setup(make_deck(20), &camps, Player::Player1);
    let i = end_turn_index(&game);
    let game = game.select(i);
    let gs = game.state();
    assert_eq!(gs.cur_player, Player::Player2);
    assert_eq!(gs.cur_player_water, 3);
    assert!(gs.player1.has_water_silo);
    assert_eq!(gs.player2.hand.count(), 2);
    // player 2 ends their turn with water left, and player 1 gets one more water
    let i = end_turn_index(&game);
    let game = game.select(i);
    let gs = game.state();
    assert_eq!(gs.cur_player, Player::Player1);
    assert_eq!(gs.cur_player_water, 4);
    assert!(!gs.player1.has_water_silo);
    assert!(gs.player2.has_water_silo);
    assert_eq!(gs.player1.hand.count(), 4);
}

#[test]
fn game_pay_to_draw_once_per_turn() {
    let camps = get_camp_types();
    let game = Game::from_setup(make_deck(20), &camps, Player::Player1);
    let i = end_turn_index(&game);
    let game = game.select(i);
    // player 2 has 3 water: drawing is offered once
    let idx = match game.choice() {
        Some(Choice::Action(c)) => c.actions().iter().position(|a| *a == Action::DrawCard).unwrap(),
        _ => panic!("expected a choice of actions"),
    };
    let hand_before = game.state().player2.hand.count();
    let game = game.select(idx);
    assert_eq!(game.state().player2.hand.count(), hand_before + 1);
    assert_eq!(game.state().cur_player_water, 1);
    assert!(game.state().has_paid_to_draw);
    match game.choice() {
        Some(Choice::Action(c)) => assert!(!c.actions().contains(&Action::DrawCard)),
        _ => panic!("expected a choice of actions"),
    }
}

#[test]
fn game_random_playouts_keep_every_option_playable() {
    let camps = get_camp_types();
    let mut rng = Lcg(12345);
    for g in 0..40 {
        let deck_size = 30 + (g % 7) * 5;
        let first = if g % 2 == 0 { Player::Player1 } else { Player::Player2 };
        let mut game = Game::from_setup(make_deck(deck_size), &camps, first);
        let mut steps = 0;
        while game.result().is_none() && steps < 3000 {
            let n = game.num_options();
            assert!(n > 0);
            let before = cards_in_state(game.state()) + held_by(&game);
            assert!(before <= deck_size);
            game = game.select(rng.next(n));
            let after = cards_in_state(game.state()) + held_by(&game);
            assert!(after <= before);
            steps += 1;
        }
        if game.result().is_some() {
            assert_eq!(game.num_options(), 0);
            assert!(game.chooser().is_none());
        }
    }
}

#[test]
fn game_new_deals_distinct_random_camps() {
    let camps = get_camp_types();
    let people = get_person_types();
    for _ in 0..10 {
        let game = Game::new(&camps, &people);
        let gs = game.state();
        let mut chosen: Vec<CampType> = gs
            .player1
            .columns
            .iter()
            .chain(gs.player2.columns.iter())
            .map(|c| c.camp.camp_type)
            .collect();
        chosen.sort_by_key(|c| *c as usize);
        chosen.dedup();
        assert_eq!(chosen.len(), 6);
        assert_eq!(gs.cur_player_water, 1);
        assert_eq!(cards_in_state(gs), 43);
        assert!(game.num_options() > 0);
    }
}

/// A game state with the given camps for each player and an empty deck and hands.
fn blank_state() -> GameState {
    let camps = get_camp_types();
    let mut deck = Vec::new();
    GameState {
        player1: PlayerState::new(&[CampType::Railgun, CampType::ScudLauncher, CampType::Garage], &mut deck),
        player2: PlayerState::new(&[camps[1], camps[3], camps[5]], &mut deck),
        deck,
        discard: Vec::new(),
        cur_player: Player::Player1,
        cur_player_water: 3,
        has_paid_to_draw: false,
        has_played_event: false,
        has_reshuffled_deck: false,
    }
}

fn person(person_type: PersonType, status: NonPunkStatus) -> Person {
    Person::NonPunk { person_type, status, times_used: 0 }
}

#[test]
fn game_damage_injures_then_destroys_and_shifts() {
    let mut gs = blank_state();
    gs.player2.columns[0].person_slots = [
        Some(person(PersonType::Muse, NonPunkStatus::Ready)),
        Some(person(PersonType::Scout, NonPunkStatus::NotReady)),
    ];
    let back = CardLocation::new(ColumnIndex::new(0), CardRowIndex::new(1), Player::Player2);
    assert_eq!(gs.damage_card_at(back, false, true), Ok(()));
    assert_eq!(gs.player2.columns[0].person_slots[0], Some(person(PersonType::Muse, NonPunkStatus::Injured)));
    assert!(gs.discard.is_empty());
    assert_eq!(gs.damage_card_at(back, false, true), Ok(()));
    // the injured Muse is destroyed, discarded, and the Scout moves back
    assert_eq!(gs.discard, vec![PersonOrEventType::Person(PersonType::Muse)]);
    assert_eq!(gs.player2.columns[0].person_slots[0], Some(person(PersonType::Scout, NonPunkStatus::NotReady)));
    assert_eq!(gs.player2.columns[0].person_slots[1], None);
}

#[test]
fn game_destroying_last_camp_ends_game() {
    let mut gs = blank_state();
    let camp = |c: usize| CardLocation::new(ColumnIndex::new(c), CardRowIndex::camp(), Player::Player2);
    assert_eq!(gs.damage_card_at(camp(0), true, false), Ok(()));
    assert_eq!(gs.damage_card_at(camp(1), false, false), Ok(()));
    assert_eq!(gs.player2.columns[1].camp.status, CampStatus::Damaged);
    assert_eq!(gs.damage_card_at(camp(1), false, false), Ok(()));
    assert_eq!(gs.damage_card_at(camp(2), true, false), Err(GameResult::P1Wins));
}

#[test]
fn game_injure_all_unprotected_enemies() {
    let mut gs = blank_state();
    gs.player2.columns[0].person_slots = [
        Some(person(PersonType::Muse, NonPunkStatus::Ready)),
        Some(Person::Punk { is_ready: true, times_used: 0 }),
    ];
    gs.player2.columns[2].person_slots = [Some(person(PersonType::Scout, NonPunkStatus::Injured)), None];
    gs.injure_all_unprotected_enemies(Player::Player1);
    // the punk in front is destroyed and the Muse behind it moves forward unharmed
    assert_eq!(gs.player2.columns[0].person_slots[0], Some(person(PersonType::Muse, NonPunkStatus::Ready)));
    assert_eq!(gs.player2.columns[0].person_slots[1], None);
    // the injured Scout is destroyed
    assert_eq!(gs.player2.columns[2].person_slots, [None, None]);
    assert_eq!(gs.discard, vec![PersonOrEventType::Person(PersonType::Scout)]);
}

#[test]
fn game_destroy_all_injured_enemies() {
    let mut gs = blank_state();
    gs.player2.columns[1].person_slots = [
        Some(person(PersonType::Muse, NonPunkStatus::Injured)),
        Some(person(PersonType::Scout, NonPunkStatus::Ready)),
    ];
    gs.destroy_all_injured_enemies(Player::Player1);
    assert_eq!(gs.player2.columns[1].person_slots, [Some(person(PersonType::Scout, NonPunkStatus::Ready)), None]);
    assert_eq!(gs.discard, vec![PersonOrEventType::Person(PersonType::Muse)]);
}

#[test]
fn game_draw_card_reshuffles_once_then_ties() {
    let mut gs = blank_state();
    assert_eq!(gs.draw_card(), Err(GameResult::Tie));
    gs.discard = vec![PersonOrEventType::Person(PersonType::Muse), PersonOrEventType::Person(PersonType::Scout)];
    let first = gs.draw_card().unwrap();
    assert!(gs.has_reshuffled_deck);
    assert!(gs.discard.is_empty());
    assert_eq!(gs.deck.len(), 1);
    let second = gs.draw_card().unwrap();
    let mut drawn = vec![first, second];
    drawn.sort_by_key(|c| c.card_id());
    assert_eq!(drawn, vec![PersonOrEventType::Person(PersonType::Scout), PersonOrEventType::Person(PersonType::Muse)]);
    gs.discard = vec![PersonOrEventType::Person(PersonType::Muse)];
    assert_eq!(gs.draw_card(), Err(GameResult::Tie));
}

#[test]
fn game_draw_takes_top_of_deck() {
    let mut gs = blank_state();
    gs.deck = vec![PersonOrEventType::Person(PersonType::Muse), PersonOrEventType::Person(PersonType::Gunner)];
    assert_eq!(gs.draw_card_into_hand(Player::Player2), Ok(PersonOrEventType::Person(PersonType::Gunner)));
    assert_eq!(gs.player2.hand.count_of(PersonType::Gunner.index()), 1);
    let drawn = gs.draw_cards_into_hand(Player::Player1, 1).unwrap();
    assert_eq!(drawn.to_list(), vec![PersonType::Muse.index()]);
    assert_eq!(gs.draw_cards_into_hand(Player::Player1, 1).err(), Some(GameResult::Tie));
}

#[test]
fn game_water_is_spent_and_gained() {
    let mut gs = blank_state();
    gs.spend_water(2);
    assert_eq!(gs.cur_player_water, 1);
    gs.gain_water();
    assert_eq!(gs.cur_player_water, 2);
    gs.cur_player_water = u32::MAX;
    gs.gain_water();
    assert_eq!(gs.cur_player_water, u32::MAX);
}

#[test]
fn game_raid_plays_and_advances_raiders() {
    let mut gs = blank_state();
    assert!(gs.can_raid(Player::Player1));
    let f = gs.raid(Player::Player1);
    assert!(matches!(f, radbot::radlands::choices::ChoiceFuture::Immediate(None)));
    assert_eq!(gs.player1.events, [None, Some(EventType::Raiders), None]);
    assert!(gs.has_played_event);
    gs.raid(Player::Player1);
    assert_eq!(gs.player1.events, [Some(EventType::Raiders), None, None]);
    // resolving it has player 2 damage one of their camps
    match gs.raid(Player::Player1) {
        radbot::radlands::choices::ChoiceFuture::Pending(Choice::Damage(c)) => {
            assert_eq!(c.chooser(), Player::Player2);
            assert!(!c.destroy());
            assert_eq!(c.locations().len(), 3);
        },
        _ => panic!("expected a damage choice"),
    }
    assert_eq!(gs.player1.events, [None, None, None]);
}

#[test]
fn game_hand_cards_give_actions() {
    let mut gs = blank_state();
    gs.player1.hand = Cards::from_slice(&[PersonType::Muse.index(), PersonType::Holdout.index()]);
    let actions = gs.player1.actions(&gs);
    assert!(actions.contains(&Action::PlayPerson(PersonType::Muse)));
    // Holdout costs 2 in a column whose camp stands, and there is no destroyed camp
    assert!(actions.contains(&Action::PlayPerson(PersonType::Holdout)));
    assert!(!actions.contains(&Action::PlayHoldout(PersonType::Holdout)));
    assert!(actions.contains(&Action::DrawCard));
    assert_eq!(*actions.last().unwrap(), Action::EndTurn);
    gs.player1.columns[1].camp.status = CampStatus::Destroyed;
    let actions = gs.player1.actions(&gs);
    assert!(actions.contains(&Action::PlayHoldout(PersonType::Holdout)));
}

#[test]
fn game_argo_yesky_lends_and_mimic_copies() {
    let mut gs = blank_state();
    let at = |c: usize, r: usize| PlayLocation::new(ColumnIndex::new(c), PersonRowIndex::new(r));
    gs.player1.columns[0].person_slots = [Some(person(PersonType::ArgoYesky, NonPunkStatus::Ready)), None];
    gs.player1.columns[1].person_slots = [Some(Person::Punk { is_ready: true, times_used: 0 }), None];
    gs.player1.columns[2].person_slots = [Some(person(PersonType::Mimic, NonPunkStatus::Ready)), None];
    gs.player2.columns[0].person_slots = [Some(person(PersonType::Gunner, NonPunkStatus::Ready)), None];
    let argo = icon_ability(1, IconEffect::Damage);
    let actions = gs.player1.actions(&gs);
    // Argo Yesky uses its own ability, and lends it to the punk and to Mimic
    assert!(actions.contains(&Action::UsePersonAbility(argo, at(0, 0))));
    assert!(actions.contains(&Action::UsePersonAbility(argo, at(1, 0))));
    assert!(actions.contains(&Action::UsePersonAbility(argo, at(2, 0))));
    // Mimic copies the ready enemy Gunner
    assert!(actions.contains(&Action::UsePersonAbility(Ability::Custom(CustomAbility::Gunner), at(2, 0))));
    // the punk has nothing of its own
    assert!(!actions.contains(&Action::UsePersonAbility(Ability::Custom(CustomAbility::Gunner), at(1, 0))));
    assert_eq!(*actions.last().unwrap(), Action::EndTurn);
    // an injured Argo Yesky lends nothing
    gs.player1.columns[0].person_slots[0] = Some(person(PersonType::ArgoYesky, NonPunkStatus::Injured));
    let actions = gs.player1.actions(&gs);
    assert!(!actions.contains(&Action::UsePersonAbility(argo, at(1, 0))));
    assert!(!actions.iter().any(|a| matches!(a, Action::UsePersonAbility(_, l) if *l == at(0, 0))));
}

#[test]
fn game_new_deals_each_person_card_as_often_as_it_is_in_the_deck() {
    let camps = get_camp_types();
    let people = get_person_types();
    let game = Game::new(&camps, &people);
    let gs = game.state();
    for pt in people.iter() {
        let id = pt.index();
        let in_deck = gs.deck.iter().filter(|c| c.card_id() == id).count();
        let in_hands = gs.player1.hand.count_of(id) + gs.player2.hand.count_of(id);
        assert_eq!(in_deck + in_hands, pt.num_in_deck() as usize);
    }
    assert_eq!(gs.discard.len(), 0);
}

#[test]
fn game_draw_cards_into_hand_reshuffles_the_discard_once() {
    let muse = PersonOrEventType::Person(PersonType::Muse);
    let scout = PersonOrEventType::Person(PersonType::Scout);
    let mut gs = blank_state();
    gs.deck = vec![muse];
    gs.discard = vec![scout, muse];
    let drawn = gs.draw_cards_into_hand(Player::Player1, 3).unwrap();
    let mut ids = drawn.to_list();
    ids.sort();
    let mut expected = vec![PersonType::Muse.index(), PersonType::Muse.index(), PersonType::Scout.index()];
    expected.sort();
    assert_eq!(ids, expected);
    assert!(gs.has_reshuffled_deck);

    let mut gs = blank_state();
    gs.deck = vec![muse];
    gs.discard = vec![scout, muse];
    assert_eq!(gs.draw_cards_into_hand(Player::Player1, 4).err(), Some(GameResult::Tie));
}

#[test]
fn game_scientist_needs_three_cards_to_discard() {
    let muse = PersonOrEventType::Person(PersonType::Muse);
    let scout = PersonOrEventType::Person(PersonType::Scout);
    let loc = CardLocation::new(ColumnIndex::new(0), CardRowIndex::new(1), Player::Player1);
    // one card in the deck and one discarded: the deck's card is discarded too, and both come
    // back in the reshuffle
    let mut gs = blank_state();
    gs.deck = vec![muse];
    gs.discard = vec![scout];
    assert!(CustomAbility::Scientist.perform(&mut gs, Player::Player1, loc).is_ok());
    assert_eq!(gs.discard.len() + gs.deck.len(), 2);
    // two discarded cards and no deck: only two can be drawn
    let mut gs = blank_state();
    gs.discard = vec![scout, muse];
    assert_eq!(CustomAbility::Scientist.perform(&mut gs, Player::Player1, loc).err(), Some(GameResult::Tie));
    // the discard pile was shuffled back already: only the deck counts
    let mut gs = blank_state();
    gs.deck = vec![muse, scout];
    gs.discard = vec![scout, muse, muse];
    gs.has_reshuffled_deck = true;
    assert_eq!(CustomAbility::Scientist.perform(&mut gs, Player::Player1, loc).err(), Some(GameResult::Tie));
}

#[test]
fn game_actions_list_only_abilities_more_than_once() {
    let camps = get_camp_types();
    let mut rng = Lcg(777);
    for g in 0..20 {
        let first = if g % 2 == 0 { Player::Player1 } else { Player::Player2 };
        let mut game = Game::from_setup(make_deck(40), &camps, first);
        let mut steps = 0;
        while game.result().is_none() && steps < 400 {
            if let Some(Choice::Action(c)) = game.choice() {
                let actions = c.actions();
                assert_eq!(actions.iter().filter(|a| **a == Action::EndTurn).count(), 1);
                assert!(actions.iter().filter(|a| **a == Action::DrawCard).count() <= 1);
                for (i, a) in actions.iter().enumerate() {
                    if !matches!(a, Action::UsePersonAbility(..)) {
                        assert!(!actions[i + 1..].contains(a));
                    }
                }
            }
            let n = game.num_options();
            game = game.select(rng.next(n));
            steps += 1;
        }
    }
}

#[test]
fn game_copies_keep_the_pending_choice() {
    let camps = get_camp_types();
    let mut rng = Lcg(99);
    let mut game = Game::from_setup(make_deck(40), &camps, Player::Player2);
    let mut steps = 0;
    while game.result().is_none() && steps < 300 {
        let copy = game.duplicate();
        let shuffled = game.randomize_unobserved();
        assert_eq!(format!("{:?}", copy.choice()), format!("{:?}", game.choice()));
        assert_eq!(format!("{:?}", shuffled.choice()), format!("{:?}", game.choice()));
        assert_eq!(copy.state().deck, game.state().deck);
        let n = game.num_options();
        game = game.select(rng.next(n));
        steps += 1;
    }
}

#[test]
fn game_new_hands_hold_the_camps_cards_and_the_first_draw() {
    let camps = get_camp_types();
    let people = get_person_types();
    for _ in 0..10 {
        let game = Game::new(&camps, &people);
        let gs = game.state();
        let initial = |ps: &PlayerState| ps.columns.iter().map(|c| c.camp.camp_type.num_initial_cards() as usize).sum::<usize>();
        let first_draw = |p: Player| if gs.cur_player == p { 1 } else { 0 };
        assert_eq!(gs.player1.hand.count(), initial(&gs.player1) + first_draw(Player::Player1));
        assert_eq!(gs.player2.hand.count(), initial(&gs.player2) + first_draw(Player::Player2));
    }
}

#[test]
fn game_new_needs_only_a_deck_larger_than_the_starting_cards() {
    let camps = get_camp_types();
    // Outpost, Victory Totem and Cannon each deal a starting card
    assert_eq!(max_initial_cards_of(&camps), 3);
    assert_eq!(max_initial_cards_of(&[CampType::Railgun, CampType::Garage]), 0);
    // Scout and Muse come to 4 cards, more than the 3 that any six camps deal
    let people = [PersonType::Scout, PersonType::Muse];
    let deck: u32 = people.iter().map(|p| p.num_in_deck()).sum();
    assert!(deck as usize > 3);
    let game = Game::new(&camps, &people);
    let gs = game.state();
    assert!(gs.player1.events.iter().all(|e| e.is_none()));
    assert!(gs.player2.events.iter().all(|e| e.is_none()));
    assert_eq!(cards_in_state(gs), deck as usize);
}

#[test]
fn cards_draw_random_can_draw_every_card() {
    let cards = Cards::from_slice(&[1, 2, 3, 4, 5, 6, 7, 8]);
    let mut seen = vec![false; 9];
    for _ in 0..400 {
        let (rest, drawn) = cards.draw_random(2);
        assert_eq!(drawn.count(), 2);
        assert_eq!(rest.count(), 6);
        for id in drawn.to_list() {
            seen[id as usize] = true;
        }
    }
    assert!(seen[1..].iter().all(|s| *s));
}
