//! The actions a player can take on their turn.

use vstd::prelude::*;

use super::abilities::{ability_steps, custom_outcome, Ability, CustomAbility};
use super::events::EventType;
use super::locations::{CardLocation, CardRowIndex, ColumnIndex, PersonRowIndex, Player, PlayLocation};
use super::people::{PersonType, SpecialType};
use super::player_state::{play_loc_pairs, sat_inc, Camp, CampStatus, NonPunkStatus, Person, PlayerState};
use super::choices::{continued, end_turn_outcome, goes_on, is_turn_choice, outcome_cards, Choice, ChoiceFuture, Step};
use super::views::{effect_outcome, play_event_outcome, play_locs};
use super::player_state::{lemma_special_alike, slot_is_active_special};
use super::{
    draw_outcome, hand_wf, is_deck_card_id, lemma_card_id_inverse, lemma_card_id_round_trip, lemma_column_change,
    piles_wf, same_but_board, Action, GameResult, GameState, IconEffect, PersonOrEventType, MAX_CARDS,
};

verus! {

/// No person's ability is the Cannon camp's.
pub proof fn lemma_person_abilities_not_cannon(pt: PersonType)
    ensures
        forall|i: int|
            0 <= i < pt.spec_abilities().len() ==> #[trigger] pt.spec_abilities()[i] != Ability::Custom(
                CustomAbility::Cannon,
            ),
{
}

impl Ability {
    /// Returns whether this ability can be used by the player in the game state, not counting
    /// its water cost.
    pub fn can_perform(self, gs: &GameState, player: Player) -> (r: bool)
        ensures
            r == self.spec_can_perform(*gs, player),
    {
        let me = gs.player(player);
        let them = gs.player(player.other());
        match self {
            Ability::Icon { effect, .. } => effect.can_perform(gs, player),
            Ability::Custom(c) => match c {
                CustomAbility::Gunner | CustomAbility::Assassin => them.people().len() > 0,
                CustomAbility::RabbleRouserDamage => me.has_punk(),
                CustomAbility::Pyromaniac => {
                    // can perform if the opponent has an unprotected camp
                    let locs = them.unprotected_card_locs();
                    let mut i: usize = 0;
                    let mut found = false;
                    while i < locs.len()
                        invariant
                            i <= locs@.len(),
                            super::player_state::loc_pairs(locs@) == them.spec_unprotected_card_locs(),
                            found == exists|j: int| 0 <= j < i && (#[trigger] them.spec_unprotected_card_locs()[j]).1 == 0,
                        decreases locs@.len() - i,
                    {
                        assert(super::player_state::loc_pairs(locs@)[i as int].1 == locs@[i as int].spec_row().index());
                        if locs[i].row().is_camp() {
                            found = true;
                        }
                        i += 1;
                    }
                    found
                },
                CustomAbility::Doomsayer => them.has_event(),
                CustomAbility::Exterminator => {
                    // can perform if the opponent has any injured people
                    let people = them.people();
                    let mut i: usize = 0;
                    let mut found = false;
                    while i < people.len()
                        invariant
                            i <= people@.len(),
                            people@ == them.spec_people(),
                            found == exists|j: int| 0 <= j < i && (#[trigger] people@[j]).spec_is_injured(),
                        decreases people@.len() - i,
                    {
                        if people[i].is_injured() {
                            found = true;
                        }
                        i += 1;
                    }
                    found
                },
                _ => true,
            },
        }
    }

    /// Returns whether this ability can be afforded and used by the player.
    pub fn can_afford_and_perform(self, gs: &GameState, player: Player) -> (r: bool)
        ensures
            r == (gs.cur_player_water >= self.spec_cost() && self.spec_can_perform(*gs, player)),
    {
        gs.cur_player_water >= self.cost() && self.can_perform(gs, player)
    }
}

/// In a list of actions, only the use of a person's ability may occur more than once (a Mimic
/// can copy the same ability from several people, and Argo Yesky lends an ability that a person
/// may have already).
pub open spec fn only_abilities_repeat(s: Seq<Action>) -> bool {
    forall|i: int, j: int| 0 <= i < j < s.len() && #[trigger] s[i] == #[trigger] s[j] ==> s[i] is UsePersonAbility
}

/// Appends an action to the list.
fn push_action(actions: &mut Vec<Action>, x: Action)
    ensures
        final(actions)@ == old(actions)@.push(x),
        forall|y: Action| #[trigger] final(actions)@.contains(y) <==> old(actions)@.contains(y) || y == x,
        only_abilities_repeat(old(actions)@) && (x is UsePersonAbility || !old(actions)@.contains(x))
            ==> only_abilities_repeat(final(actions)@),
{
    let ghost before = actions@;
    actions.push(x);
    proof {
        if only_abilities_repeat(before) && (x is UsePersonAbility || !before.contains(x)) {
            assert forall|i: int, j: int| 0 <= i < j < actions@.len() && #[trigger] actions@[i] == #[trigger] actions@[j]
                implies actions@[i] is UsePersonAbility by {
                if j == before.len() {
                    assert(before[i] == x);
                } else {
                    assert(before[i] == actions@[i] && before[j] == actions@[j]);
                }
            }
        }
        assert forall|y: Action| #[trigger] actions@.contains(y) <==> before.contains(y) || y == x by {
            lemma_push_contains(before, x, y);
        }
    }
}

/// A sequence with one more element contains what it contained, and that element.
pub proof fn lemma_push_contains<T>(s: Seq<T>, x: T, y: T)
    ensures
        s.push(x).contains(y) <==> s.contains(y) || y == x,
{
    if s.contains(y) {
        let i = choose|i: int| 0 <= i < s.len() && s[i] == y;
        assert(s.push(x)[i] == y);
    }
    if s.push(x).contains(y) {
        let i = choose|i: int| 0 <= i < s.push(x).len() && s.push(x)[i] == y;
        if i < s.len() {
            assert(s[i] == y);
        }
    }
    assert(s.push(x)[s.len() as int] == x);
}

/// Looking at one more person extends the ready sources by that person's abilities.
pub proof fn lemma_ready_source_step(people: Seq<Person>, j: int)
    requires
        0 <= j < people.len(),
    ensures
        forall|a: Ability| #[trigger] has_ready_source(people.subrange(0, j + 1), a) <==> (has_ready_source(people.subrange(0, j), a)
            || (ready_type(people[j]) matches Some(pt) && pt.spec_abilities().contains(a))),
{
    assert forall|a: Ability| #[trigger] has_ready_source(people.subrange(0, j + 1), a) <==> (has_ready_source(people.subrange(0, j), a)
        || (ready_type(people[j]) matches Some(pt) && pt.spec_abilities().contains(a))) by {
        let s1 = people.subrange(0, j + 1);
        let s0 = people.subrange(0, j);
        if has_ready_source(s1, a) {
            let i = choose|i: int| 0 <= i < s1.len() && (#[trigger] ready_type(s1[i]) matches Some(pt) && pt.spec_abilities().contains(a));
            if i < j {
                assert(s0[i] == s1[i]);
            }
        }
        if has_ready_source(s0, a) {
            let i = choose|i: int| 0 <= i < s0.len() && (#[trigger] ready_type(s0[i]) matches Some(pt) && pt.spec_abilities().contains(a));
            assert(s1[i] == s0[i]);
        }
        if ready_type(people[j]) matches Some(pt) && pt.spec_abilities().contains(a) {
            assert(s1[j] == people[j]);
        }
    }
}

/// The ability can be afforded and used by the current player.
pub open spec fn usable(gs: GameState, a: Ability) -> bool {
    gs.cur_player_water >= a.spec_cost() && a.spec_can_perform(gs, gs.cur_player)
}

/// An ability is offered only when the current player can afford it and its card text lets it be
/// used now; so Doomsayer's damage is offered only while the opponent has an event in play.
pub proof fn lemma_offered_abilities_usable(gs: GameState, a: Ability, l: PlayLocation)
    ensures
        offered(gs, Action::UsePersonAbility(a, l)) ==> usable(gs, a),
        offered(gs, Action::UsePersonAbility(Ability::Custom(CustomAbility::Doomsayer), l)) ==> exists|i: int|
            0 <= i < 3 && #[trigger] gs.spec_player(gs.cur_player.spec_other()).events[i] is Some,
{
    super::abilities::lemma_custom_ability_conditions(gs, gs.cur_player, CustomAbility::Doomsayer);
    assert(argo_ability() != Ability::Custom(CustomAbility::Doomsayer));
}

/// The type of a ready person card (not a punk).
pub open spec fn ready_type(q: Person) -> Option<PersonType> {
    match q {
        Person::NonPunk { person_type, status: NonPunkStatus::Ready, .. } => Some(person_type),
        _ => None,
    }
}

/// The person is an uninjured Argo Yesky.
pub open spec fn is_uninjured_argo(q: Person) -> bool {
    q matches Person::NonPunk { person_type, status, .. } && person_type == PersonType::ArgoYesky
        && status != NonPunkStatus::Injured
}

/// Argo Yesky's ability, which its trait lends to the other ready cards of its owner's board.
pub open spec fn argo_ability() -> Ability {
    PersonType::ArgoYesky.spec_abilities()[0]
}

/// Argo Yesky's trait lends its ability when an uninjured Argo Yesky is on the current player's
/// board and the ability can be afforded and used.
pub open spec fn argo_lends(gs: GameState) -> bool {
    let people = gs.spec_player(gs.cur_player).spec_people();
    &&& exists|i: int| 0 <= i < people.len() && #[trigger] is_uninjured_argo(people[i])
    &&& usable(gs, argo_ability())
}

/// Some ready person among these has the ability printed on it.
pub open spec fn has_ready_source(people: Seq<Person>, a: Ability) -> bool {
    exists|i: int| 0 <= i < people.len() && (#[trigger] ready_type(people[i]) matches Some(pt) && pt.spec_abilities().contains(a))
}

/// The current player's card `q` may use the ability: a ready person its own abilities, a ready
/// Mimic also those of any ready person on either board, and any ready card but Argo Yesky
/// itself the ability that Argo Yesky lends.
pub open spec fn person_offers(gs: GameState, q: Person, a: Ability) -> bool {
    let p = gs.cur_player;
    ||| (ready_type(q) matches Some(pt) && pt.spec_abilities().contains(a) && usable(gs, a))
    ||| (q.spec_is_ready() && !(q matches Person::NonPunk { person_type, .. } && person_type == PersonType::ArgoYesky)
        && argo_lends(gs) && a == argo_ability())
    ||| (ready_type(q) == Some(PersonType::Mimic) && usable(gs, a) && (has_ready_source(gs.spec_player(p).spec_people(), a)
        || has_ready_source(gs.spec_player(p.spec_other()).spec_people(), a)))
}

/// The actions that the current player is offered: playing a person card from their hand that
/// they can afford where it can go (a Holdout also for free into a column with a destroyed
/// camp), playing an event card they can afford when there is room for it, junking a card whose
/// junk effect can be performed, paying 2 water to draw once per turn, using the abilities of
/// their ready people (see [`person_offers`]) and ready camps that they can afford and use, and
/// ending the turn.
pub open spec fn offered(gs: GameState, x: Action) -> bool {
    let p = gs.cur_player;
    let ps = gs.spec_player(p);
    match x {
        Action::PlayPerson(pt) => {
            &&& gs.hand_has(PersonOrEventType::Person(pt))
            &&& gs.cur_player_water >= pt.spec_cost()
            &&& if pt.spec_special_type() == SpecialType::Holdout {
                ps.spec_has_empty_holdout_slot(false)
            } else {
                ps.spec_has_empty_person_slot()
            }
        },
        Action::PlayHoldout(pt) => {
            &&& gs.hand_has(PersonOrEventType::Person(pt))
            &&& pt.spec_special_type() == SpecialType::Holdout
            &&& ps.spec_has_empty_holdout_slot(true)
        },
        Action::PlayEvent(e) => {
            &&& gs.hand_has(PersonOrEventType::Event(e))
            &&& gs.cur_player_water >= e.spec_cost()
            &&& gs.spec_can_play_event(p, e.spec_resolve_turns())
        },
        Action::DrawCard => gs.cur_player_water >= 2 && !gs.has_paid_to_draw,
        Action::JunkCard(card) => gs.hand_has(card) && gs.spec_effect_can_perform(p, card.spec_junk_effect()),
        Action::UsePersonAbility(a, loc) => {
            &&& loc.spec_column().index() < 3
            &&& loc.spec_row().index() < 2
            &&& ps.columns[loc.spec_column().index() as int].person_slots[loc.spec_row().index() as int] matches Some(q)
                && person_offers(gs, q, a)
        },
        Action::UseCampAbility(a, col) => {
            &&& col.index() < 3
            &&& ps.columns[col.index() as int].camp.spec_is_ready()
            &&& ps.columns[col.index() as int].camp.camp_type.spec_abilities().contains(a)
            &&& usable(gs, a)
        },
        Action::EndTurn => true,
    }
}

/// The hand card that an action plays or junks.
pub open spec fn hand_card_of(x: Action) -> Option<PersonOrEventType> {
    match x {
        Action::PlayPerson(pt) => Some(PersonOrEventType::Person(pt)),
        Action::PlayHoldout(pt) => Some(PersonOrEventType::Person(pt)),
        Action::PlayEvent(e) => Some(PersonOrEventType::Event(e)),
        Action::JunkCard(card) => Some(card),
        _ => None,
    }
}

/// Every action offered may be taken.
pub proof fn lemma_offered_ok(gs: GameState, x: Action)
    requires
        gs.wf(),
        offered(gs, x),
    ensures
        gs.spec_action_ok(x),
{
    let p = gs.cur_player;
    match x {
        Action::PlayEvent(e) => {
            let id = PersonOrEventType::Event(e).spec_card_id();
            assert(gs.spec_player(p).hand@.count(id) > 0);
            assert(is_deck_card_id(id));
        },
        Action::JunkCard(card) => {
            let id = card.spec_card_id();
            assert(gs.spec_player(p).hand@.count(id) > 0);
            assert(is_deck_card_id(id));
            lemma_card_id_round_trip(card);
        },
        Action::UsePersonAbility(a, loc) => {
            let q = gs.spec_player(p).columns[loc.spec_column().index() as int].person_slots[loc.spec_row().index() as int]->Some_0;
            lemma_person_abilities_not_cannon(PersonType::ArgoYesky);
            if let Some(pt) = ready_type(q) {
                lemma_person_abilities_not_cannon(pt);
            }
            if has_ready_source(gs.spec_player(p).spec_people(), a) {
                let i = choose|i: int| 0 <= i < gs.spec_player(p).spec_people().len() && (#[trigger] ready_type(gs.spec_player(p).spec_people()[i]) matches Some(pt) && pt.spec_abilities().contains(a));
                lemma_person_abilities_not_cannon(ready_type(gs.spec_player(p).spec_people()[i])->Some_0);
            }
            if has_ready_source(gs.spec_player(p.spec_other()).spec_people(), a) {
                let i = choose|i: int| 0 <= i < gs.spec_player(p.spec_other()).spec_people().len() && (#[trigger] ready_type(gs.spec_player(p.spec_other()).spec_people()[i]) matches Some(pt) && pt.spec_abilities().contains(a));
                lemma_person_abilities_not_cannon(ready_type(gs.spec_player(p.spec_other()).spec_people()[i])->Some_0);
            }
        },
        _ => {},
    }
}

impl PlayerState {
    /// Adds the actions to play or junk the given card of the hand that are offered.
    fn push_card_actions(&self, gs: &GameState, actions: &mut Vec<Action>, card: PersonOrEventType, can_play_person: bool)
        requires
            *self == gs.spec_player(gs.cur_player),
            gs.hand_has(card),
            card.is_deck_card(),
            can_play_person == self.spec_has_empty_person_slot(),
            only_abilities_repeat(old(actions)@),
            forall|x: Action| #[trigger] old(actions)@.contains(x) ==> hand_card_of(x) != Some(card),
        ensures
            forall|x: Action| #[trigger] final(actions)@.contains(x) <==> old(actions)@.contains(x) || (
                hand_card_of(x) == Some(card) && offered(*gs, x)),
            only_abilities_repeat(final(actions)@),
    {
        let ghost start = actions@;
        let player = gs.cur_player;
        let can_afford = gs.cur_player_water >= card.cost();
        match card {
            PersonOrEventType::Person(person_type) => {
                if person_type.special_type() == SpecialType::Holdout {
                    // PlayPerson/PlayHoldout actions for "Holdout"
                    if can_afford && self.has_empty_holdout_slot(false) {
                        // there's an empty slot in a column with a non-destroyed camp (and the
                        // player can afford Holdout's normal cost)
                        push_action(actions, Action::PlayPerson(person_type));
                    }
                    if self.has_empty_holdout_slot(true) {
                        // there's an empty slot in a column with a destroyed camp
                        push_action(actions, Action::PlayHoldout(person_type));
                    }
                } else if can_afford && can_play_person {
                    // PlayPerson actions for all other people
                    push_action(actions, Action::PlayPerson(person_type));
                }
            },
            PersonOrEventType::Event(event_type) => {
                // PlayEvent actions
                if can_afford && gs.can_play_event(player, event_type.resolve_turns()) {
                    push_action(actions, Action::PlayEvent(event_type));
                }
            },
        }
        // JunkCard actions
        if card.junk_effect().can_perform(gs, player) {
            push_action(actions, Action::JunkCard(card));
        }
        proof {
            assert forall|x: Action| #[trigger] actions@.contains(x) <==> start.contains(x) || (hand_card_of(x) == Some(card)
                && offered(*gs, x)) by {
                if hand_card_of(x) == Some(card) {
                    match x {
                        Action::PlayPerson(pt) => {},
                        Action::PlayHoldout(pt) => {},
                        Action::PlayEvent(e) => {},
                        Action::JunkCard(c) => {},
                        _ => {},
                    }
                }
            }
        }
    }

    /// Adds an action to use each ability of the person type that can be afforded and used, by
    /// the person at `loc`.
    fn push_usable_abilities(&self, gs: &GameState, actions: &mut Vec<Action>, person_type: PersonType, loc: PlayLocation)
        requires
            *self == gs.spec_player(gs.cur_player),
            only_abilities_repeat(old(actions)@),
        ensures
            only_abilities_repeat(final(actions)@),
            forall|x: Action| #[trigger] final(actions)@.contains(x) <==> old(actions)@.contains(x) || (
                x matches Action::UsePersonAbility(a, l) && l == loc && person_type.spec_abilities().contains(a) && usable(*gs, a)),
    {
        let abilities = person_type.abilities();
        let ghost start = actions@;
        let mut i: usize = 0;
        while i < abilities.len()
            invariant
                i <= abilities@.len(),
                abilities@ == person_type.spec_abilities(),
                only_abilities_repeat(actions@),
                forall|x: Action| #[trigger] actions@.contains(x) <==> start.contains(x) || (
                    x matches Action::UsePersonAbility(a, l) && l == loc && abilities@.subrange(0, i as int).contains(a)
                    && usable(*gs, a)),
            decreases abilities@.len() - i,
        {
            let a = abilities[i];
            if a.can_afford_and_perform(gs, gs.cur_player) {
                push_action(actions, Action::UsePersonAbility(a, loc));
            }
            proof {
                assert(abilities@.subrange(0, i + 1) =~= abilities@.subrange(0, i as int).push(a));
                assert forall|x: Action| #[trigger] actions@.contains(x) <==> start.contains(x) || (
                    x matches Action::UsePersonAbility(b, l) && l == loc && abilities@.subrange(0, i + 1).contains(b)
                    && usable(*gs, b)) by {
                    if let Action::UsePersonAbility(b, l) = x {
                        lemma_push_contains(abilities@.subrange(0, i as int), a, b);
                    }
                }
            }
            i += 1;
        }
        assert(abilities@.subrange(0, i as int) =~= abilities@);
    }

    /// Returns Argo Yesky's ability if an uninjured Argo Yesky is on the board and the ability
    /// can be afforded and used; other ready people may then use it too.
    fn argo_yesky_ability(&self, gs: &GameState) -> (r: Option<Ability>)
        requires
            *self == gs.spec_player(gs.cur_player),
        ensures
            r == if argo_lends(*gs) { Some(argo_ability()) } else { None::<Ability> },
    {
        let people = self.people();
        let mut i: usize = 0;
        while i < people.len()
            invariant
                i <= people@.len(),
                *self == gs.spec_player(gs.cur_player),
                people@ == self.spec_people(),
                forall|j: int| 0 <= j < i ==> !is_uninjured_argo(#[trigger] people@[j]),
            decreases people@.len() - i,
        {
            if let Person::NonPunk { person_type, status, .. } = people[i] {
                if person_type.special_type() == SpecialType::ArgoYesky && status != NonPunkStatus::Injured {
                    assert(is_uninjured_argo(people@[i as int]));
                    let abilities = person_type.abilities();
                    let a = abilities[0];
                    if a.can_afford_and_perform(gs, gs.cur_player) {
                        return Some(a);
                    } else {
                        return None;
                    }
                }
            }
            i += 1;
        }
        None
    }

    /// Adds the actions to use an ability of the current player's person `person` at `loc`
    /// that are offered (see [`person_offers`]); `argo` is what Argo Yesky lends, if anything.
    fn push_person_actions(&self, gs: &GameState, actions: &mut Vec<Action>, loc: PlayLocation, person: Person, argo: Option<Ability>)
        requires
            *self == gs.spec_player(gs.cur_player),
            argo == if argo_lends(*gs) { Some(argo_ability()) } else { None::<Ability> },
            only_abilities_repeat(old(actions)@),
        ensures
            forall|x: Action| #[trigger] final(actions)@.contains(x) <==> old(actions)@.contains(x) || (
                x matches Action::UsePersonAbility(a, l) && l == loc && person_offers(*gs, person, a)),
            only_abilities_repeat(final(actions)@),
    {
        let player = gs.cur_player;
        match person {
            Person::Punk { is_ready, .. } => {
                // punks don't have abilities, unless they're given one by another card
                if is_ready {
                    if let Some(a) = argo {
                        push_action(actions, Action::UsePersonAbility(a, loc));
                    }
                }
            },
            Person::NonPunk { person_type, status, .. } => {
                if status == NonPunkStatus::Ready {
                    // the person's own abilities
                    self.push_usable_abilities(gs, actions, person_type, loc);
                    let ghost own = actions@;
                    // Argo Yesky's ability (if in effect)
                    if person_type.special_type() != SpecialType::ArgoYesky {
                        if let Some(a) = argo {
                            push_action(actions, Action::UsePersonAbility(a, loc));
                        }
                    }
                    let ghost lent = actions@;
                    // Mimic gets its abilities from other people: either one of your own
                    // ready people, or any ready enemy person
                    if person_type.special_type() == SpecialType::Mimic {
                        let mine = self.people();
                        let theirs = gs.player(player.other()).people();
                        let mut j: usize = 0;
                        while j < mine.len()
                            invariant
                                j <= mine@.len(),
                                *self == gs.spec_player(gs.cur_player),
                                player == gs.cur_player,
                                mine@ == gs.spec_player(player).spec_people(),
                                only_abilities_repeat(actions@),
                                forall|x: Action| #[trigger] actions@.contains(x) <==> lent.contains(x) || (
                                    x matches Action::UsePersonAbility(a, l) && l == loc && usable(*gs, a)
                                    && has_ready_source(mine@.subrange(0, j as int), a)),
                            decreases mine@.len() - j,
                        {
                            if let Person::NonPunk { person_type: other_type, status: NonPunkStatus::Ready, .. } = mine[j] {
                                self.push_usable_abilities(gs, actions, other_type, loc);
                            }
                            proof {
                                lemma_ready_source_step(mine@, j as int);
                            }
                            j += 1;
                        }
                        assert(mine@.subrange(0, j as int) =~= mine@);
                        let ghost after_mine = actions@;
                        let mut j: usize = 0;
                        while j < theirs.len()
                            invariant
                                j <= theirs@.len(),
                                *self == gs.spec_player(gs.cur_player),
                                player == gs.cur_player,
                                theirs@ == gs.spec_player(player.spec_other()).spec_people(),
                                only_abilities_repeat(actions@),
                                forall|x: Action| #[trigger] actions@.contains(x) <==> after_mine.contains(x) || (
                                    x matches Action::UsePersonAbility(a, l) && l == loc && usable(*gs, a)
                                    && has_ready_source(theirs@.subrange(0, j as int), a)),
                            decreases theirs@.len() - j,
                        {
                            if let Person::NonPunk { person_type: other_type, status: NonPunkStatus::Ready, .. } = theirs[j] {
                                self.push_usable_abilities(gs, actions, other_type, loc);
                            }
                            proof {
                                lemma_ready_source_step(theirs@, j as int);
                            }
                            j += 1;
                        }
                        assert(theirs@.subrange(0, j as int) =~= theirs@);
                    }
                }
            },
        }
    }

    /// Returns the actions that this player (the current player of the game state) can take:
    /// exactly those offered (see [`offered`]), ending the turn last.
    #[verifier::rlimit(40)]
    pub fn actions(&self, gs: &GameState) -> (r: Vec<Action>)
        requires
            gs.wf(),
            *self == gs.spec_player(gs.cur_player),
        ensures
            forall|x: Action| #[trigger] r@.contains(x) <==> offered(*gs, x),
            forall|i: int| 0 <= i < r@.len() ==> gs.spec_action_ok(#[trigger] r@[i]),
            r@.len() > 0,
            r@.last() == Action::EndTurn,
            r@.contains(Action::DrawCard) <==> (gs.cur_player_water >= 2 && !gs.has_paid_to_draw),
            only_abilities_repeat(r@),
    {
        let player = gs.cur_player;
        let water = gs.cur_player_water;
        let mut actions: Vec<Action> = Vec::new();

        // actions to play or junk a card
        let can_play_person = self.has_empty_person_slot();
        let ids = self.hand.iter_unique();
        let mut k: usize = 0;
        while k < ids.len()
            invariant
                k <= ids@.len(),
                gs.wf(),
                *self == gs.spec_player(gs.cur_player),
                can_play_person == self.spec_has_empty_person_slot(),
                ids@.to_set() == self.hand@.dom(),
                ids@.no_duplicates(),
                only_abilities_repeat(actions@),
                forall|x: Action| #[trigger] actions@.contains(x) <==> (hand_card_of(x) matches Some(c)
                    && ids@.subrange(0, k as int).contains(c.spec_card_id()) && offered(*gs, x)),
            decreases ids@.len() - k,
        {
            let id = ids[k];
            proof {
                assert(ids@.contains(id));
                assert(ids@.to_set().contains(id));
                assert(self.hand@.count(id) > 0);
                assert(is_deck_card_id(id));
                lemma_card_id_inverse(id);
            }
            let card = PersonOrEventType::from_card_id(id).unwrap();
            assert(card.is_deck_card());
            let ghost before = actions@;
            proof {
                assert forall|x: Action| #[trigger] actions@.contains(x) implies hand_card_of(x) != Some(card) by {
                    if hand_card_of(x) == Some(card) {
                        lemma_card_id_round_trip(card);
                        let j = choose|j: int| 0 <= j < k && ids@.subrange(0, k as int)[j] == card.spec_card_id();
                        assert(ids@[j] == ids@[k as int]);
                    }
                }
            }
            self.push_card_actions(gs, &mut actions, card, can_play_person);
            proof {
                assert(ids@.subrange(0, k + 1) =~= ids@.subrange(0, k as int).push(id));
                assert forall|x: Action| #[trigger] actions@.contains(x) <==> (hand_card_of(x) matches Some(c)
                    && ids@.subrange(0, k + 1).contains(c.spec_card_id()) && offered(*gs, x)) by {
                    if let Some(c) = hand_card_of(x) {
                        lemma_card_id_round_trip(c);
                        lemma_card_id_round_trip(card);
                        lemma_push_contains(ids@.subrange(0, k as int), id, c.spec_card_id());
                    }
                }
            }
            k += 1;
        }
        proof {
            assert(ids@.subrange(0, k as int) =~= ids@);
            assert forall|x: Action| #[trigger] actions@.contains(x) <==> (hand_card_of(x) is Some && offered(*gs, x)) by {
                if let Some(c) = hand_card_of(x) {
                    if offered(*gs, x) {
                        assert(self.hand@.count(c.spec_card_id()) > 0);
                        assert(self.hand@.dom().contains(c.spec_card_id()));
                        assert(ids@.to_set().contains(c.spec_card_id()));
                    }
                }
            }
        }

        // action to pay 2 water to draw a card (limited to 1 use per turn)
        if water >= 2 && !gs.has_paid_to_draw {
            push_action(&mut actions, Action::DrawCard);
        }
        assert forall|x: Action| #[trigger] actions@.contains(x) <==> ((hand_card_of(x) is Some || x == Action::DrawCard)
            && offered(*gs, x)) by {}

        // actions to use a person's ability
        let argo = self.argo_yesky_ability(gs);
        let mut c: usize = 0;
        while c < 3
            invariant
                c <= 3,
                gs.wf(),
                *self == gs.spec_player(gs.cur_player),
                argo == if argo_lends(*gs) { Some(argo_ability()) } else { None::<Ability> },
                only_abilities_repeat(actions@),
                forall|x: Action| #[trigger] actions@.contains(x) <==> ((hand_card_of(x) is Some || x == Action::DrawCard
                    || (x matches Action::UsePersonAbility(_, l) && l.spec_column().index() < c)) && offered(*gs, x)),
            decreases 3 - c,
        {
            let mut row: usize = 0;
            while row < 2
                invariant
                    c < 3,
                    row <= 2,
                    gs.wf(),
                    *self == gs.spec_player(gs.cur_player),
                    argo == if argo_lends(*gs) { Some(argo_ability()) } else { None::<Ability> },
                    only_abilities_repeat(actions@),
                    forall|x: Action| #[trigger] actions@.contains(x) <==> ((hand_card_of(x) is Some || x == Action::DrawCard
                        || (x matches Action::UsePersonAbility(_, l) && (l.spec_column().index() < c
                        || (l.spec_column().index() == c && l.spec_row().index() < row)))) && offered(*gs, x)),
                decreases 2 - row,
            {
                let loc = PlayLocation::new(ColumnIndex::new(c), PersonRowIndex::new(row));
                if let Some(person) = self.columns[c].person_slots[row] {
                    self.push_person_actions(gs, &mut actions, loc, person, argo);
                }
                proof {
                    assert forall|x: Action| #[trigger] actions@.contains(x) <==> ((hand_card_of(x) is Some || x == Action::DrawCard
                        || (x matches Action::UsePersonAbility(_, l) && (l.spec_column().index() < c
                        || (l.spec_column().index() == c && l.spec_row().index() < row + 1)))) && offered(*gs, x)) by {
                        if let Action::UsePersonAbility(a, l) = x {
                            if l.spec_column().index() == c && l.spec_row().index() == row {
                                PlayLocation::lemma_index_injective(l, loc);
                            }
                        }
                    }
                }
                row += 1;
            }
            c += 1;
        }

        // actions to use a camp's ability
        let mut c: usize = 0;
        while c < 3
            invariant
                c <= 3,
                gs.wf(),
                *self == gs.spec_player(gs.cur_player),
                player == gs.cur_player,
                only_abilities_repeat(actions@),
                forall|x: Action| #[trigger] actions@.contains(x) <==> ((hand_card_of(x) is Some || x == Action::DrawCard
                    || x is UsePersonAbility || (x matches Action::UseCampAbility(_, col) && col.index() < c)) && offered(*gs, x)),
            decreases 3 - c,
        {
            let camp = self.columns[c].camp;
            let col = ColumnIndex::new(c);
            let ghost before_camp = actions@;
            if camp.is_ready() {
                let abilities = camp.camp_type.abilities();
                proof {
                    assert(abilities@.no_duplicates()) by {
                        match camp.camp_type {
                            super::camps::CampType::Outpost => {},
                            super::camps::CampType::VictoryTotem => {},
                            _ => {},
                        }
                    }
                    assert forall|y: Action| #[trigger] before_camp.contains(y) implies !(y matches Action::UseCampAbility(_, cl) && cl == col) by {
                        if let Action::UseCampAbility(_, cl) = y {
                            if cl == col {
                                assert(cl.index() == c);
                            }
                        }
                    }
                }
                let mut i: usize = 0;
                while i < abilities.len()
                    invariant
                        i <= abilities@.len(),
                        c < 3,
                        player == gs.cur_player,
                        abilities@ == camp.camp_type.spec_abilities(),
                        abilities@.no_duplicates(),
                        only_abilities_repeat(actions@),
                        forall|y: Action| #[trigger] before_camp.contains(y) ==> !(y matches Action::UseCampAbility(_, cl) && cl == col),
                        forall|x: Action| #[trigger] actions@.contains(x) <==> before_camp.contains(x) || (
                            x matches Action::UseCampAbility(a, cl) && cl == col && abilities@.subrange(0, i as int).contains(a)
                            && usable(*gs, a)),
                    decreases abilities@.len() - i,
                {
                    let a = abilities[i];
                    proof {
                        if actions@.contains(Action::UseCampAbility(a, col)) {
                            assert(abilities@.subrange(0, i as int).contains(a));
                            let j = choose|j: int| 0 <= j < i && abilities@.subrange(0, i as int)[j] == a;
                            assert(abilities@[j] == abilities@[i as int]);
                        }
                    }
                    if a.can_afford_and_perform(gs, player) {
                        push_action(&mut actions, Action::UseCampAbility(a, col));
                    }
                    proof {
                        assert(abilities@.subrange(0, i + 1) =~= abilities@.subrange(0, i as int).push(a));
                        assert forall|x: Action| #[trigger] actions@.contains(x) <==> before_camp.contains(x) || (
                            x matches Action::UseCampAbility(b, cl) && cl == col && abilities@.subrange(0, i + 1).contains(b)
                            && usable(*gs, b)) by {
                            if let Action::UseCampAbility(b, cl) = x {
                                lemma_push_contains(abilities@.subrange(0, i as int), a, b);
                            }
                        }
                    }
                    i += 1;
                }
                assert(abilities@.subrange(0, i as int) =~= abilities@);
            }
            proof {
                assert forall|x: Action| #[trigger] actions@.contains(x) <==> ((hand_card_of(x) is Some || x == Action::DrawCard
                    || x is UsePersonAbility || (x matches Action::UseCampAbility(_, cl) && cl.index() < c + 1)) && offered(*gs, x)) by {
                    if let Action::UseCampAbility(a, cl) = x {
                        if cl.index() == c {
                            ColumnIndex::lemma_index_injective(cl, col);
                        }
                    }
                }
            }
            c += 1;
        }

        // action to end turn (and take Water Silo if possible)
        push_action(&mut actions, Action::EndTurn);
        proof {
            assert forall|x: Action| #[trigger] actions@.contains(x) <==> offered(*gs, x) by {
                match x {
                    Action::UseCampAbility(_, cl) => {},
                    _ => {},
                }
            }
            assert forall|i: int| 0 <= i < actions@.len() implies gs.spec_action_ok(#[trigger] actions@[i]) by {
                assert(actions@.contains(actions@[i]));
                lemma_offered_ok(*gs, actions@[i]);
            }
        }
        actions
    }
}


/// The current player's hand lost one card of the given type, and nothing else changed.
pub open spec fn took_from_hand(old: GameState, new: GameState, card: PersonOrEventType) -> bool {
    let p = old.cur_player;
    &&& new.spec_player(p).hand@ == old.spec_player(p).hand@.remove(card.spec_card_id())
    &&& new.spec_player(p).columns == old.spec_player(p).columns
    &&& new.spec_player(p).events == old.spec_player(p).events
    &&& new.spec_player(p).has_water_silo == old.spec_player(p).has_water_silo
    &&& new.spec_player(p.spec_other()) == old.spec_player(p.spec_other())
    &&& new.deck == old.deck
    &&& new.discard == old.discard
    &&& new.cur_player == old.cur_player
    &&& new.cur_player_water == old.cur_player_water
    &&& new.has_paid_to_draw == old.has_paid_to_draw
    &&& new.has_played_event == old.has_played_event
    &&& new.has_reshuffled_deck == old.has_reshuffled_deck
}

/// The game state after the current player paid the given amount of water.
pub open spec fn paid(gs: GameState, amount: u32) -> GameState {
    GameState { cur_player_water: (gs.cur_player_water - amount) as u32, ..gs }
}

/// Paying 2 water to draw a card: the current player draws (see [`draw_outcome`]) and may not
/// pay to draw again this turn, then chooses their next action; the game ends when no card can
/// be drawn.
pub open spec fn draw_action_outcome(old: GameState, new: GameState, r: Result<Choice, GameResult>) -> bool {
    let p = old.cur_player;
    let before = paid(old, 2);
    exists|mid: GameState, d: Result<PersonOrEventType, GameResult>|
        #![trigger draw_outcome(before, mid, d)]
        {
            &&& draw_outcome(before, mid, d)
            &&& mid.same_but_piles(before, p)
            &&& match d {
                Ok(c) => {
                    &&& mid.hand_grew(before, p, c)
                    &&& new == GameState { has_paid_to_draw: true, ..mid }
                    &&& r matches Ok(ch) && is_turn_choice(ch, new)
                },
                Err(e) => mid.spec_player(p) == before.spec_player(p) && new == mid && r == Err::<Choice, GameResult>(e),
            }
        }
}

/// Where a person may be played: a free Holdout only into a column with a destroyed camp, a
/// paid Holdout only into a column whose camp is not destroyed, anyone else anywhere.
pub open spec fn play_restriction(pt: PersonType, holdout_free: bool) -> Option<bool> {
    if holdout_free {
        Some(true)
    } else if pt.spec_special_type() == SpecialType::Holdout {
        Some(false)
    } else {
        None
    }
}

/// The person that a played card becomes: ready when its type enters play ready or Karli
/// Blaze's trait is active.
pub open spec fn played_person(ps: PlayerState, pt: PersonType) -> Person {
    Person::NonPunk {
        person_type: pt,
        status: if ps.spec_has_special_person(SpecialType::KarliBlaze) || pt.spec_enters_play_ready() {
            NonPunkStatus::Ready
        } else {
            NonPunkStatus::NotReady
        },
        times_used: 0,
    }
}

/// Playing a person card: the current player pays its cost (a free Holdout costs nothing), the
/// card leaves their hand, and they choose where to play it; with no place for it, they go on
/// to choose their next action.
pub open spec fn play_person_outcome(
    old: GameState,
    new: GameState,
    pt: PersonType,
    holdout_free: bool,
    r: Result<Choice, GameResult>,
) -> bool {
    let p = old.cur_player;
    let before = if holdout_free { old } else { paid(old, pt.spec_cost()) };
    let locs = play_locs(new.spec_player(p), play_restriction(pt, holdout_free));
    &&& took_from_hand(before, new, PersonOrEventType::Person(pt))
    &&& locs.len() > 0 ==> (r matches Ok(Choice::PlayLoc(c)) && c.chooser == p && c.person == played_person(
        new.spec_player(p),
        pt,
    ) && play_loc_pairs(c.locations@) == locs && c.next_steps@.len() == 0)
    &&& locs.len() == 0 ==> (r matches Ok(c) && is_turn_choice(c, new))
}

/// Playing an event card: the current player pays its cost, the card leaves their hand, and the
/// event is played (see [`play_event_outcome`]); a choice it asks for is offered next, else the
/// player chooses their next action.
pub open spec fn play_event_action_outcome(old: GameState, new: GameState, e: EventType, r: Result<Choice, GameResult>) -> bool {
    let p = old.cur_player;
    exists|mid: GameState, f: ChoiceFuture|
        #![trigger play_event_outcome(mid, new, p, e, f)]
        {
            &&& took_from_hand(paid(old, e.spec_cost()), mid, PersonOrEventType::Event(e))
            &&& play_event_outcome(mid, new, p, e, f)
            &&& goes_on(new, new, f, r)
        }
}

/// Junking a card: the card goes from the current player's hand to the discard pile and its
/// junk effect is performed (see [`effect_outcome`]); a choice it asks for is offered next,
/// else the player chooses their next action.
pub open spec fn junk_outcome(old: GameState, new: GameState, card: PersonOrEventType, r: Result<Choice, GameResult>) -> bool {
    let p = old.cur_player;
    exists|taken: GameState, junked: GameState, mid: GameState, fr: Result<ChoiceFuture, GameResult>|
        #![trigger took_from_hand(old, taken, card), effect_outcome(junked, mid, p, card.spec_junk_effect(), fr)]
        {
            &&& took_from_hand(old, taken, card)
            &&& junked.discard@ == taken.discard@.push(card)
            &&& junked == GameState { discard: junked.discard, ..taken }
            &&& effect_outcome(junked, mid, p, card.spec_junk_effect(), fr)
            &&& match fr {
                Ok(f) => goes_on(mid, new, f, r),
                Err(e) => new == mid && r == Err::<Choice, GameResult>(e),
            }
        }
}

/// A person after one more use of its abilities: no longer ready, unless Vera Vosh's trait keeps
/// it ready for its first use of the turn.
pub open spec fn used_person(person: Person, vera_vosh: bool) -> Person {
    let counted = person.with_times_used(sat_inc(person.spec_times_used()));
    if vera_vosh && counted.spec_times_used() == 1 {
        counted
    } else {
        counted.spec_unreadied()
    }
}

/// A camp after one more use of its abilities: no longer ready, unless Vera Vosh's trait keeps
/// it ready for its first use of the turn.
pub open spec fn used_camp(camp: Camp, vera_vosh: bool) -> Camp {
    let counted = Camp { times_used: sat_inc(camp.times_used), ..camp };
    if vera_vosh && counted.times_used == 1 {
        counted
    } else {
        Camp { is_ready: false, ..counted }
    }
}

/// What an ability does (see [`effect_outcome`] and [`custom_outcome`]), given what it returned.
pub open spec fn ability_effect(
    ability: Ability,
    old: GameState,
    new: GameState,
    player: Player,
    card_loc: CardLocation,
    r: Result<ChoiceFuture, GameResult>,
) -> bool {
    match ability {
        Ability::Icon { effect, .. } => effect_outcome(old, new, player, effect, r),
        Ability::Custom(c) => r matches Ok(f) ==> custom_outcome(old, new, player, c, card_loc, f),
    }
}

/// Using an ability of a card of the current player: they pay its cost, the card at `card_loc`
/// is marked as used (`marked`), and the ability takes effect; then the game goes on with the
/// steps that follow the ability (see [`continued`]).
pub open spec fn ability_use_outcome(
    ability: Ability,
    marked: GameState,
    new: GameState,
    card_loc: CardLocation,
    r: Result<Choice, GameResult>,
) -> bool {
    let p = marked.cur_player;
    exists|mid: GameState, fr: Result<ChoiceFuture, GameResult>|
        #![trigger ability_effect(ability, marked, mid, p, card_loc, fr)]
        {
            &&& ability_effect(ability, marked, mid, p, card_loc, fr)
            &&& match fr {
                Ok(f) => continued(mid, new, f, ability_steps(ability, p, card_loc), r),
                Err(e) => new == mid && r == Err::<Choice, GameResult>(e),
            }
        }
}

/// The future that an ability's performance returned, without the steps that follow it.
spec fn future_part(r: Result<(ChoiceFuture, Vec<Step>), GameResult>) -> Result<ChoiceFuture, GameResult> {
    match r {
        Ok((f, _)) => Ok(f),
        Err(e) => Err(e),
    }
}

/// The current player's column `c` was changed, and nothing else.
pub open spec fn only_column_changed(old: GameState, new: GameState, c: int) -> bool {
    let p = old.cur_player;
    &&& same_but_board(old, new, p)
    &&& new.discard == old.discard
    &&& forall|k: int| 0 <= k < 3 && k != c ==> #[trigger] new.spec_player(p).columns[k] == old.spec_player(p).columns[k]
}

/// Using an ability of the current player's person at `loc` (see [`ability_use_outcome`]).
pub open spec fn person_ability_outcome(
    old: GameState,
    new: GameState,
    ability: Ability,
    loc: PlayLocation,
    r: Result<Choice, GameResult>,
) -> bool {
    let p = old.cur_player;
    let before = paid(old, ability.spec_cost());
    let c = loc.spec_column().index() as int;
    let row = loc.spec_row().index() as int;
    let col = before.spec_player(p).columns[c];
    let vera_vosh = before.spec_player(p).spec_has_special_person(SpecialType::VeraVosh);
    exists|marked: GameState, card_loc: CardLocation|
        #![trigger ability_use_outcome(ability, marked, new, card_loc, r)]
        {
            &&& card_loc.spec_column() == loc.spec_column()
            &&& card_loc.spec_row().index() == loc.spec_row().index() + 1
            &&& card_loc.spec_player() == p
            &&& only_column_changed(before, marked, c)
            &&& marked.spec_player(p).columns[c].camp == col.camp
            &&& marked.spec_player(p).columns[c].person_slots[row] == Some(used_person(col.person_slots[row].unwrap(), vera_vosh))
            &&& marked.spec_player(p).columns[c].person_slots[1 - row] == col.person_slots[1 - row]
            &&& ability_use_outcome(ability, marked, new, card_loc, r)
        }
}

/// Using an ability of the current player's camp in column `col` (see
/// [`ability_use_outcome`]).
pub open spec fn camp_ability_outcome(
    old: GameState,
    new: GameState,
    ability: Ability,
    col: ColumnIndex,
    r: Result<Choice, GameResult>,
) -> bool {
    let p = old.cur_player;
    let before = paid(old, ability.spec_cost());
    let c = col.index() as int;
    let column = before.spec_player(p).columns[c];
    let vera_vosh = before.spec_player(p).spec_has_special_person(SpecialType::VeraVosh);
    exists|marked: GameState, card_loc: CardLocation|
        #![trigger ability_use_outcome(ability, marked, new, card_loc, r)]
        {
            &&& card_loc.spec_column() == col
            &&& card_loc.spec_row().index() == 0
            &&& card_loc.spec_player() == p
            &&& only_column_changed(before, marked, c)
            &&& marked.spec_player(p).columns[c].camp == used_camp(column.camp, vera_vosh)
            &&& marked.spec_player(p).columns[c].person_slots == column.person_slots
            &&& ability_use_outcome(ability, marked, new, card_loc, r)
        }
}

/// At the end of their turn, the current player takes Water Silo into their hand when they have
/// water left.
pub open spec fn silo_taken(gs: GameState) -> GameState {
    let p = gs.cur_player;
    gs.with_player(p, PlayerState { has_water_silo: gs.cur_player_water >= 1, ..gs.spec_player(p) })
}

/// What taking an action does.
pub open spec fn action_outcome(old: GameState, new: GameState, action: Action, r: Result<Choice, GameResult>) -> bool {
    match action {
        Action::PlayPerson(pt) => play_person_outcome(old, new, pt, false, r),
        Action::PlayHoldout(pt) => play_person_outcome(old, new, pt, true, r),
        Action::PlayEvent(e) => play_event_action_outcome(old, new, e, r),
        Action::DrawCard => draw_action_outcome(old, new, r),
        Action::JunkCard(card) => junk_outcome(old, new, card, r),
        Action::UsePersonAbility(ability, loc) => person_ability_outcome(old, new, ability, loc, r),
        Action::UseCampAbility(ability, col) => camp_ability_outcome(old, new, ability, col, r),
        Action::EndTurn => end_turn_outcome(silo_taken(old), new, r),
    }
}

impl GameState {
    /// Takes a card of the given type out of the current player's hand.
    pub fn take_from_hand(&mut self, card: PersonOrEventType)
        requires
            old(self).wf(),
            old(self).hand_has(card),
        ensures
            final(self).wf(),
            final(self).card_total() + 1 == old(self).card_total(),
            took_from_hand(*old(self), *final(self), card),
    {
        let p = self.cur_player;
        let ghost s0 = *self;
        self.player_mut(p).hand.remove_one(card.card_id());
        proof {
            let h = self.spec_player(p).hand@;
            assert forall|id: u32| #[trigger] h.count(id) > 0 implies is_deck_card_id(id) by {
                assert(s0.spec_player(p).hand@.count(id) > 0);
            }
        }
    }
}

/// Plays a person card from the current player's hand: for its cost, or for free into a column
/// with a destroyed camp (Holdout).
fn perform_play_person(gs: &mut GameState, person_type: PersonType, holdout_free: bool) -> (r: Result<Choice, GameResult>)
    requires
        old(gs).wf(),
        old(gs).spec_action_ok(if holdout_free { Action::PlayHoldout(person_type) } else { Action::PlayPerson(person_type) }),
    ensures
        final(gs).wf(),
        outcome_cards(*final(gs), r) <= old(gs).card_total(),
        r matches Ok(c) ==> c.valid_for(*final(gs)),
        play_person_outcome(*old(gs), *final(gs), person_type, holdout_free, r),
{
    let p = gs.cur_player;
    // pay the person's cost and remove it from the player's hand
    if !holdout_free {
        gs.spend_water(person_type.cost());
    }
    gs.take_from_hand(PersonOrEventType::Person(person_type));
    // play the person onto the board; only a free Holdout goes into a column with a destroyed
    // camp, and a paid Holdout only into a column with a camp that is not destroyed
    let destroyed_restriction = if holdout_free {
        Some(true)
    } else if person_type.special_type() == SpecialType::Holdout {
        Some(false)
    } else {
        None
    };
    let force_ready = gs.player(p).has_special_person(SpecialType::KarliBlaze);
    let person = Person::new_non_punk(person_type, force_ready);
    assert(person == played_person(gs.spec_player(p), person_type));
    let f = gs.play_person(p, person, destroyed_restriction);
    f.continue_with(gs, Vec::new())
}

/// Plays an event card from the current player's hand.
fn perform_play_event(gs: &mut GameState, event_type: EventType) -> (r: Result<Choice, GameResult>)
    requires
        old(gs).wf(),
        old(gs).spec_action_ok(Action::PlayEvent(event_type)),
    ensures
        final(gs).wf(),
        outcome_cards(*final(gs), r) <= old(gs).card_total(),
        r matches Ok(c) ==> c.valid_for(*final(gs)),
        play_event_action_outcome(*old(gs), *final(gs), event_type, r),
{
    let p = gs.cur_player;
    // pay the event's cost and remove it from the player's hand
    gs.spend_water(event_type.cost());
    gs.take_from_hand(PersonOrEventType::Event(event_type));
    let ghost mid = *gs;
    // play the event
    let f = gs.play_event(p, event_type);
    let ghost played = *gs;
    let r = f.continue_with(gs, Vec::new());
    assert(play_event_outcome(mid, played, p, event_type, f));
    r
}

/// Pays 2 water to draw a card.
fn perform_draw(gs: &mut GameState) -> (r: Result<Choice, GameResult>)
    requires
        old(gs).wf(),
        old(gs).spec_action_ok(Action::DrawCard),
    ensures
        final(gs).wf(),
        outcome_cards(*final(gs), r) <= old(gs).card_total(),
        r matches Ok(c) ==> c.valid_for(*final(gs)),
        draw_action_outcome(*old(gs), *final(gs), r),
{
    let p = gs.cur_player;
    gs.spend_water(2);
    let ghost before = *gs;
    let d = gs.draw_card_into_hand(p);
    let ghost mid = *gs;
    match d {
        Ok(_) => {
            gs.has_paid_to_draw = true;
            let r = Ok(Choice::new_actions(gs));
            assert(draw_outcome(before, mid, d));
            r
        },
        Err(e) => {
            assert(draw_outcome(before, mid, d));
            Err(e)
        },
    }
}

/// Junks a card from the current player's hand to use its junk effect.
fn perform_junk(gs: &mut GameState, card: PersonOrEventType) -> (r: Result<Choice, GameResult>)
    requires
        old(gs).wf(),
        old(gs).spec_action_ok(Action::JunkCard(card)),
    ensures
        final(gs).wf(),
        outcome_cards(*final(gs), r) <= old(gs).card_total(),
        r matches Ok(c) ==> c.valid_for(*final(gs)),
        junk_outcome(*old(gs), *final(gs), card, r),
{
    let p = gs.cur_player;
    // move the card to the discard pile
    gs.take_from_hand(card);
    let ghost taken = *gs;
    gs.discard.push(card);
    assert(piles_wf(*gs));
    let ghost junked = *gs;
    assert(junked == GameState { discard: junked.discard, ..taken });
    // perform the card's junk effect
    let effect = card.junk_effect();
    let fr = effect.perform(gs, p);
    let ghost mid = *gs;
    proof {
        assert(took_from_hand(*old(gs), taken, card));
        assert(effect_outcome(junked, mid, p, card.spec_junk_effect(), fr));
    }
    match fr {
        Ok(f) => f.continue_with(gs, Vec::new()),
        Err(e) => Err(e),
    }
}

/// Uses an ability of the ready person at the location; the person is no longer ready
/// afterwards, unless Vera Vosh's trait is active and this is its first use this turn.
#[verifier::spinoff_prover]
#[verifier::rlimit(40)]
fn perform_person_ability(gs: &mut GameState, ability: Ability, location: PlayLocation) -> (r: Result<Choice, GameResult>)
    requires
        old(gs).wf(),
        old(gs).spec_action_ok(Action::UsePersonAbility(ability, location)),
    ensures
        final(gs).wf(),
        outcome_cards(*final(gs), r) <= old(gs).card_total(),
        r matches Ok(c) ==> c.valid_for(*final(gs)),
        person_ability_outcome(*old(gs), *final(gs), ability, location, r),
{
    let p = gs.cur_player;
    // pay the ability's cost
    gs.spend_water(ability.cost());
    let is_vera_vosh_trait_active = gs.player(p).has_special_person(SpecialType::VeraVosh);
    let c = location.column().as_usize();
    let row = location.row().as_usize();
    let ghost mid = *gs;
    let mut person = gs.player(p).columns[c].person_slots[row].unwrap();
    person.increment_times_used();
    if !(is_vera_vosh_trait_active && person.times_used() == 1) {
        person.set_not_ready();
    }
    gs.player_mut(p).columns[c].person_slots[row] = Some(person);
    proof {
        lemma_column_change(mid, *gs, p, c as int);
        lemma_special_alike(mid.spec_player(p), gs.spec_player(p), SpecialType::ZetoKhan);
        assert(gs.spec_can_raid(p) == mid.spec_can_raid(p));
    }
    let ghost marked = *gs;
    // perform the ability
    let card_loc = location.for_player(p);
    let performed = ability.perform(gs, p, card_loc);
    let ghost mid = *gs;
    let ghost fr = future_part(performed);
    assert(ability_effect(ability, marked, mid, p, card_loc, fr));
    let r = match performed {
        Ok((f, steps)) => f.continue_with(gs, steps),
        Err(e) => Err(e),
    };
    assert(ability_use_outcome(ability, marked, *gs, card_loc, r));
    r
}

/// Uses an ability of the ready camp in the column; the camp is no longer ready afterwards,
/// unless Vera Vosh's trait is active and this is its first use this turn.
fn perform_camp_ability(gs: &mut GameState, ability: Ability, column_index: ColumnIndex) -> (r: Result<Choice, GameResult>)
    requires
        old(gs).wf(),
        old(gs).spec_action_ok(Action::UseCampAbility(ability, column_index)),
    ensures
        final(gs).wf(),
        outcome_cards(*final(gs), r) <= old(gs).card_total(),
        r matches Ok(c) ==> c.valid_for(*final(gs)),
        camp_ability_outcome(*old(gs), *final(gs), ability, column_index, r),
{
    let p = gs.cur_player;
    // pay the ability's cost
    gs.spend_water(ability.cost());
    let is_vera_vosh_trait_active = gs.player(p).has_special_person(SpecialType::VeraVosh);
    let c = column_index.as_usize();
    let ghost mid = *gs;
    let mut camp = gs.player(p).columns[c].camp;
    camp.increment_times_used();
    if !(is_vera_vosh_trait_active && camp.times_used() == 1) {
        camp.set_not_ready();
    }
    gs.player_mut(p).columns[c].camp = camp;
    proof {
        lemma_column_change(mid, *gs, p, c as int);
        lemma_special_alike(mid.spec_player(p), gs.spec_player(p), SpecialType::ZetoKhan);
        assert(gs.spec_can_raid(p) == mid.spec_can_raid(p));
    }
    let ghost marked = *gs;
    // perform the ability
    let card_loc = CardLocation::new(column_index, CardRowIndex::camp(), p);
    let performed = ability.perform(gs, p, card_loc);
    let ghost mid = *gs;
    let ghost fr = future_part(performed);
    assert(ability_effect(ability, marked, mid, p, card_loc, fr));
    let r = match performed {
        Ok((f, steps)) => f.continue_with(gs, steps),
        Err(e) => Err(e),
    };
    assert(ability_use_outcome(ability, marked, *gs, card_loc, r));
    r
}

impl Action {
    /// Performs the action for the current player, returning the next choice (or the end of the
    /// game).
    pub fn perform(self, gs: &mut GameState) -> (r: Result<Choice, GameResult>)
        requires
            old(gs).wf(),
            old(gs).spec_action_ok(self),
        ensures
            final(gs).wf(),
            outcome_cards(*final(gs), r) <= old(gs).card_total(),
            r matches Ok(c) ==> c.valid_for(*final(gs)),
            action_outcome(*old(gs), *final(gs), self, r),
    {
        match self {
            Action::PlayPerson(person_type) => perform_play_person(gs, person_type, false),
            Action::PlayHoldout(person_type) => perform_play_person(gs, person_type, true),
            Action::PlayEvent(event_type) => perform_play_event(gs, event_type),
            Action::DrawCard => perform_draw(gs),
            Action::JunkCard(card) => perform_junk(gs, card),
            Action::UsePersonAbility(ability, location) => perform_person_ability(gs, ability, location),
            Action::UseCampAbility(ability, column_index) => perform_camp_ability(gs, ability, column_index),
            Action::EndTurn => {
                // take Water Silo if possible, then end the turn
                let p = gs.cur_player;
                let silo = gs.cur_player_water >= 1;
                gs.player_mut(p).has_water_silo = silo;
                assert(*gs == silo_taken(*old(gs)));
                gs.end_turn()
            },
        }
    }
}

/// Paying to draw is limited to once per turn: once a player has paid to draw, the choice of
/// actions that follows does not offer it again.
pub proof fn lemma_draw_once_per_turn(old: GameState, new: GameState, r: Result<Choice, GameResult>)
    requires
        draw_action_outcome(old, new, r),
        r is Ok,
    ensures
        r matches Ok(c) && is_turn_choice(c, new),
        !offered(new, Action::DrawCard),
{
}

/// Ending the turn passes it to the other player: whatever choice comes next is made on their
/// turn.
pub proof fn lemma_end_turn_passes_turn(old: GameState, new: GameState, r: Result<Choice, GameResult>)
    requires
        end_turn_outcome(old, new, r),
    ensures
        new.cur_player == old.cur_player.spec_other(),
{
}

} // verus!
