//! Choices that a player must make, along with the logic for advancing the game state based on
//! the choice.
//!
//! A choice carries the steps of game logic that wait for it: once the option is
//! applied, the steps run in turn until the next choice comes up or the game ends.

use vstd::prelude::*;

use super::events::EventType;
use super::locations::{CardLocation, CardRowIndex, ColumnIndex, Player, PlayLocation, PlayerCardLocation};
use super::people::PersonType;
use super::player_state::{
    events_moved_back, lemma_in_columns, in_column, loc_pairs, Camp, CampStatus, CardColumn, NonPunkStatus, Person, PlayerState,
};
use super::actions::{action_outcome, offered};
use super::game::copy_vec;
use super::views::{
    damage_cards_outcome, effect_outcome, event_resolution, is_punk_future, is_restore_future, lemma_damage_future_valid, lemma_locs_on_one_board,
    locs_on_board, with_events,
};
use super::{
    board_card_count, column_cards, damage_outcome, draw_outcome, same_but_board, lemma_column_change, hand_wf, is_deck_card_id, lemma_card_id_round_trip, slot_card_count,
    Action, GameResult, GameState, IconEffect, PersonOrEventType, MAX_CARDS,
};

verus! {

/// A step of game logic that waits for an earlier choice to be made.
#[derive(Debug, Clone, Copy, PartialEq, Eq, Structural)]
pub enum Step {
    /// Draw a card for the player if the card just damaged is a camp (Looter's ability).
    DrawIfCamp(Player),
    /// Have the player damage an unprotected enemy card (Cult Leader's and Vanguard's abilities).
    DamageEnemy(Player),
    /// Offer the player to restore one of their cards (Mutant's ability).
    OfferRestore(Player),
    /// Damage the card at the location, if a card is still there (Mutant's ability).
    DamageCard(CardLocation),
    /// Finish starting the current player's turn: replenish water, reset the turn state and
    /// draw a card.
    FinishStartTurn,
}

/// A choice of top-level turn actions for the current player.
#[derive(Debug, Clone)]
pub struct ActionChoice {
    pub actions: Vec<Action>,
}

/// A choice of where to play a person.
#[derive(Debug, Clone)]
pub struct PlayChoice {
    /// The player who is playing the card.
    pub chooser: Player,
    /// The person who is being played.
    pub person: Person,
    /// The locations where the card can be played.
    pub locations: Vec<PlayLocation>,
    /// What to do after the card has been played.
    pub next_steps: Vec<Step>,
}

/// A choice of a card to damage or destroy.
#[derive(Debug, Clone)]
pub struct DamageChoice {
    /// The player that must choose a card to damage.
    pub chooser: Player,
    /// Whether to destroy the card (versus just damaging it).
    pub destroy: bool,
    /// The locations of the cards that can be damaged.
    pub locations: Vec<CardLocation>,
    /// What to do after the card has been damaged.
    pub next_steps: Vec<Step>,
}

/// A choice of one of the chooser's cards to restore.
#[derive(Debug, Clone)]
pub struct RestoreChoice {
    /// The player that must choose a card to restore.
    pub chooser: Player,
    /// The locations of the cards that can be restored.
    pub locations: Vec<PlayerCardLocation>,
    /// What to do after the card has been restored.
    pub next_steps: Vec<Step>,
}

/// A choice of an icon effect to perform; the last option performs none.
#[derive(Debug, Clone)]
pub struct IconEffectChoice {
    /// The player that chooses and performs the effect.
    pub chooser: Player,
    /// The effects to choose from.
    pub effects: Vec<IconEffect>,
    /// What to do after the effect has been performed.
    pub next_steps: Vec<Step>,
}

/// A choice of one of the chooser's people to return to their hand.
#[derive(Debug, Clone)]
pub struct RescuePersonChoice {
    /// The player that chooses.
    pub chooser: Player,
    /// The locations of the chooser's people.
    pub locations: Vec<PlayLocation>,
    /// What to do after the person has been returned.
    pub next_steps: Vec<Step>,
}

/// A choice of whether to move all the opponent's events back one slot (option 0) or not
/// (option 1).
#[derive(Debug, Clone)]
pub struct MoveEventsChoice {
    /// The player that chooses.
    pub chooser: Player,
    /// What to do after the choice.
    pub next_steps: Vec<Step>,
}

/// A choice of one of the opponent's columns, all of whose cards get damaged.
#[derive(Debug, Clone)]
pub struct DamageColumnChoice {
    /// The player that chooses.
    pub chooser: Player,
    /// The opponent's columns that can be chosen.
    pub columns: Vec<ColumnIndex>,
    /// What to do after the column has been damaged.
    pub next_steps: Vec<Step>,
}

/// A choice between several options that must be made by a player, along with the logic for
/// advancing the game state based on the choice.
#[derive(Debug, Clone)]
pub enum Choice {
    Action(ActionChoice),
    PlayLoc(PlayChoice),
    Damage(DamageChoice),
    Restore(RestoreChoice),
    IconEffect(IconEffectChoice),
    RescuePerson(RescuePersonChoice),
    MoveEvents(MoveEventsChoice),
    DamageColumn(DamageColumnChoice),
}

/// The outcome of a piece of game logic that may need to wait for a player to make a choice:
/// either it resolved at once (with the location of the card it damaged, if any), or a choice
/// must be made first.
#[derive(Debug, Clone)]
pub enum ChoiceFuture {
    Immediate(Option<CardLocation>),
    Pending(Choice),
}

/// Card locations as `(column, card row)` pairs.
pub open spec fn card_loc_pairs(v: Seq<CardLocation>) -> Seq<(nat, nat)> {
    v.map_values(|l: CardLocation| (l.spec_column().index(), l.spec_row().index()))
}

/// Every location is on the given player's board.
pub open spec fn all_on(v: Seq<CardLocation>, owner: Player) -> bool {
    forall|i: int| 0 <= i < v.len() ==> (#[trigger] v[i]).spec_player() == owner
}

/// A person can be played at the location: the slot is free, or the other slot of the column
/// is free for the person there to move to.
pub open spec fn can_place_at(ps: PlayerState, loc: PlayLocation) -> bool {
    let col = ps.columns[loc.spec_column().index() as int];
    let r = loc.spec_row().index() as int;
    &&& loc.spec_column().index() < 3
    &&& r < 2
    &&& (col.person_slots[r] is None || col.person_slots[1 - r] is None)
}

/// A person is at the location.
pub open spec fn person_at(ps: PlayerState, loc: PlayLocation) -> bool {
    &&& loc.spec_column().index() < 3
    &&& loc.spec_row().index() < 2
    &&& ps.columns[loc.spec_column().index() as int].person_slots[loc.spec_row().index() as int] is Some
}

/// The card at the location can be restored.
pub open spec fn restorable_at(ps: PlayerState, loc: PlayerCardLocation) -> bool {
    &&& loc.spec_column().index() < 3
    &&& loc.spec_row().index() < 3
    &&& ps.spec_is_restorable_at(loc.spec_column().index() as int, loc.spec_row().index() as int)
}

impl Choice {
    /// The player who makes the choice.
    pub open spec fn spec_chooser(self, gs: GameState) -> Player {
        match self {
            Choice::Action(_) => gs.cur_player,
            Choice::PlayLoc(c) => c.chooser,
            Choice::Damage(c) => c.chooser,
            Choice::Restore(c) => c.chooser,
            Choice::IconEffect(c) => c.chooser,
            Choice::RescuePerson(c) => c.chooser,
            Choice::MoveEvents(c) => c.chooser,
            Choice::DamageColumn(c) => c.chooser,
        }
    }

    /// The number of options to choose from.
    pub open spec fn spec_num_options(self) -> nat {
        match self {
            Choice::Action(c) => c.actions@.len(),
            Choice::PlayLoc(c) => c.locations@.len(),
            Choice::Damage(c) => c.locations@.len(),
            Choice::Restore(c) => c.locations@.len(),
            Choice::IconEffect(c) => c.effects@.len() + 1,
            Choice::RescuePerson(c) => c.locations@.len(),
            Choice::MoveEvents(_) => 2,
            Choice::DamageColumn(c) => c.columns@.len(),
        }
    }

    /// The cards that the choice holds while it waits: a person card on its way to the board.
    pub open spec fn held_cards(self) -> nat {
        match self {
            Choice::PlayLoc(c) => if c.person is NonPunk {
                1
            } else {
                0
            },
            _ => 0,
        }
    }

    /// The steps that wait for the choice.
    pub open spec fn spec_next_steps(self) -> Seq<Step> {
        match self {
            Choice::Action(_) => Seq::empty(),
            Choice::PlayLoc(c) => c.next_steps@,
            Choice::Damage(c) => c.next_steps@,
            Choice::Restore(c) => c.next_steps@,
            Choice::IconEffect(c) => c.next_steps@,
            Choice::RescuePerson(c) => c.next_steps@,
            Choice::MoveEvents(c) => c.next_steps@,
            Choice::DamageColumn(c) => c.next_steps@,
        }
    }

    /// Every option of the choice can be taken in the game state: there is at least one
    /// option, and each names an existing card, a free place or a performable action.
    pub open spec fn valid_for(self, gs: GameState) -> bool {
        &&& self.spec_num_options() > 0
        &&& self.spec_num_options() <= usize::MAX
        &&& gs.card_total() + self.held_cards() <= MAX_CARDS
        &&& match self {
            Choice::Action(c) => forall|i: int|
                0 <= i < c.actions@.len() ==> gs.spec_action_ok(#[trigger] c.actions@[i]),
            Choice::PlayLoc(c) => forall|i: int|
                0 <= i < c.locations@.len() ==> can_place_at(
                    gs.spec_player(c.chooser),
                    #[trigger] c.locations@[i],
                ),
            Choice::Damage(c) => forall|i: int|
                0 <= i < c.locations@.len() ==> gs.has_card_at(#[trigger] c.locations@[i]),
            Choice::Restore(c) => forall|i: int|
                0 <= i < c.locations@.len() ==> restorable_at(
                    gs.spec_player(c.chooser),
                    #[trigger] c.locations@[i],
                ),
            Choice::IconEffect(c) => forall|i: int|
                0 <= i < c.effects@.len() ==> gs.spec_effect_ok(c.chooser, #[trigger] c.effects@[i]),
            Choice::RescuePerson(c) => forall|i: int|
                0 <= i < c.locations@.len() ==> person_at(
                    gs.spec_player(c.chooser),
                    #[trigger] c.locations@[i],
                ),
            Choice::MoveEvents(_) => true,
            Choice::DamageColumn(c) => forall|i: int|
                0 <= i < c.columns@.len() ==> (#[trigger] c.columns@[i]).index() < 3,
        }
    }
}

impl ChoiceFuture {
    /// The future is resolved, or waits for a choice that is valid for the game state and has
    /// no steps attached yet.
    pub open spec fn valid_for(self, gs: GameState) -> bool {
        match self {
            ChoiceFuture::Immediate(_) => true,
            ChoiceFuture::Pending(c) => c.valid_for(gs) && c.spec_next_steps().len() == 0 && !(c is Action),
        }
    }

    /// The cards that the future holds while it waits.
    pub open spec fn held_cards(self) -> nat {
        match self {
            ChoiceFuture::Immediate(_) => 0,
            ChoiceFuture::Pending(c) => c.held_cards(),
        }
    }
}

/// The future is a choice for `chooser` to damage (or destroy) one of the listed cards on
/// `owner`'s board, or resolves at once with nothing damaged when the list is empty.
pub open spec fn is_damage_future(
    r: ChoiceFuture,
    chooser: Player,
    destroy: bool,
    owner: Player,
    pairs: Seq<(nat, nat)>,
) -> bool {
    if pairs.len() == 0 {
        r == ChoiceFuture::Immediate(None)
    } else {
        &&& r is Pending
        &&& r->Pending_0 is Damage
        &&& {
            let c = r->Pending_0->Damage_0;
            &&& c.chooser == chooser
            &&& c.destroy == destroy
            &&& c.next_steps@.len() == 0
            &&& c.locations@.len() <= usize::MAX
            &&& card_loc_pairs(c.locations@) == pairs
            &&& all_on(c.locations@, owner)
        }
    }
}

impl DamageChoice {
    /// Creates a future that asks the player to damage (or destroy) one of the given cards; with
    /// no cards to choose from it resolves at once.
    pub fn future(chooser: Player, destroy: bool, locations: Vec<CardLocation>) -> (r:
        ChoiceFuture)
        ensures
            locations@.len() <= usize::MAX,
            locations@.len() == 0 ==> r == ChoiceFuture::Immediate(None),
            locations@.len() > 0 ==> {
                &&& r is Pending
                &&& r->Pending_0 is Damage
                &&& r->Pending_0->Damage_0.chooser == chooser
                &&& r->Pending_0->Damage_0.destroy == destroy
                &&& r->Pending_0->Damage_0.locations@ == locations@
                &&& r->Pending_0->Damage_0.next_steps@.len() == 0
            },
    {
        if locations.len() == 0 {
            ChoiceFuture::Immediate(None)
        } else {
            ChoiceFuture::Pending(Choice::Damage(DamageChoice { chooser, destroy, locations, next_steps: Vec::new() }))
        }
    }
}

impl Choice {
    /// The two choices offer the same options to the same player; only the steps that wait for
    /// them may differ.
    pub open spec fn same_but_steps(self, other: Choice) -> bool {
        match (self, other) {
            (Choice::Action(a), Choice::Action(b)) => a.actions@ == b.actions@,
            (Choice::PlayLoc(a), Choice::PlayLoc(b)) => a.chooser == b.chooser && a.person == b.person
                && a.locations@ == b.locations@,
            (Choice::Damage(a), Choice::Damage(b)) => a.chooser == b.chooser && a.destroy == b.destroy
                && a.locations@ == b.locations@,
            (Choice::Restore(a), Choice::Restore(b)) => a.chooser == b.chooser && a.locations@ == b.locations@,
            (Choice::IconEffect(a), Choice::IconEffect(b)) => a.chooser == b.chooser && a.effects@ == b.effects@,
            (Choice::RescuePerson(a), Choice::RescuePerson(b)) => a.chooser == b.chooser && a.locations@
                == b.locations@,
            (Choice::MoveEvents(a), Choice::MoveEvents(b)) => a.chooser == b.chooser,
            (Choice::DamageColumn(a), Choice::DamageColumn(b)) => a.chooser == b.chooser && a.columns@ == b.columns@,
            _ => false,
        }
    }

    /// Attaches the steps that wait for the choice.
    pub fn with_next_steps(self, steps: Vec<Step>) -> (r: Choice)
        requires
            !(self is Action),
        ensures
            r.spec_next_steps() == steps@,
            r.same_but_steps(self),
            r.spec_num_options() == self.spec_num_options(),
            r.held_cards() == self.held_cards(),
            forall|gs: GameState| self.valid_for(gs) ==> #[trigger] r.valid_for(gs),
            !(r is Action),
    {
        match self {
            Choice::Action(c) => Choice::Action(c),
            Choice::PlayLoc(c) => Choice::PlayLoc(PlayChoice { next_steps: steps, ..c }),
            Choice::Damage(c) => Choice::Damage(DamageChoice { next_steps: steps, ..c }),
            Choice::Restore(c) => Choice::Restore(RestoreChoice { next_steps: steps, ..c }),
            Choice::IconEffect(c) => Choice::IconEffect(IconEffectChoice { next_steps: steps, ..c }),
            Choice::RescuePerson(c) => Choice::RescuePerson(RescuePersonChoice { next_steps: steps, ..c }),
            Choice::MoveEvents(c) => Choice::MoveEvents(MoveEventsChoice { next_steps: steps, ..c }),
            Choice::DamageColumn(c) => Choice::DamageColumn(DamageColumnChoice { next_steps: steps, ..c }),
        }
    }
}

/// A choice of the current player's actions: exactly the actions offered to them (see
/// [`offered`]), ending the turn last.
pub open spec fn is_turn_choice(c: Choice, gs: GameState) -> bool {
    c matches Choice::Action(a) && (forall|x: Action| #[trigger] a.actions@.contains(x) <==> offered(gs, x))
        && a.actions@.len() > 0 && a.actions@.last() == Action::EndTurn
}

/// Where a future leads when no steps wait for it: a pending choice is offered as it is, and a
/// resolved future leads to the current player's choice of actions; the game state stays as it
/// is.
pub open spec fn goes_on(old: GameState, new: GameState, f: ChoiceFuture, r: Result<Choice, GameResult>) -> bool {
    &&& new == old
    &&& match f {
        ChoiceFuture::Immediate(_) => r matches Ok(c) && is_turn_choice(c, new),
        ChoiceFuture::Pending(c) => r matches Ok(c2) && c2.same_but_steps(c) && c2.spec_next_steps().len() == 0,
    }
}

/// Where a future leads with the given steps waiting for it: a pending choice is offered with
/// the steps attached, and a resolved future runs them (see [`steps_outcome`]).
pub open spec fn continued(old: GameState, new: GameState, f: ChoiceFuture, steps: Seq<Step>, r: Result<Choice, GameResult>) -> bool {
    match f {
        ChoiceFuture::Pending(c) => new == old && (r matches Ok(c2) && c2.same_but_steps(c) && c2.spec_next_steps() == steps),
        ChoiceFuture::Immediate(v) => steps_outcome(old, new, steps, v, r),
    }
}

/// Where a piece of game logic that may end the game leads with the given steps waiting for
/// it: the game ends with its result, or goes on (see [`continued`]).
pub open spec fn continued_result(
    old: GameState,
    new: GameState,
    fr: Result<ChoiceFuture, GameResult>,
    steps: Seq<Step>,
    r: Result<Choice, GameResult>,
) -> bool {
    match fr {
        Err(e) => new == old && r == Err::<Choice, GameResult>(e),
        Ok(f) => continued(old, new, f, steps, r),
    }
}

impl ChoiceFuture {
    /// Runs the given steps once the future resolves: a pending choice gets them attached,
    /// and a resolved future runs them at once.
    pub fn continue_with(self, gs: &mut GameState, steps: Vec<Step>) -> (r: Result<Choice, GameResult>)
        requires
            old(gs).wf(),
            self.valid_for(*old(gs)),
        ensures
            final(gs).wf(),
            outcome_cards(*final(gs), r) <= old(gs).card_total() + self.held_cards(),
            r matches Ok(c) ==> c.valid_for(*final(gs)),
            self is Pending ==> *final(gs) == *old(gs) && (r matches Ok(c) && c.spec_next_steps() == steps@),
            steps@.len() == 0 ==> goes_on(*old(gs), *final(gs), self, r),
            continued(*old(gs), *final(gs), self, steps@, r),
    {
        match self {
            ChoiceFuture::Immediate(value) => run_steps(gs, steps, value),
            ChoiceFuture::Pending(c) => Ok(c.with_next_steps(steps)),
        }
    }
}

/// The cards in the game after a choice was applied: those in the game state and those held by
/// the next choice.
pub open spec fn outcome_cards(gs: GameState, r: Result<Choice, GameResult>) -> nat {
    gs.card_total() + match r {
        Ok(c) => c.held_cards(),
        Err(_) => 0,
    }
}

/// The game state with the current player's water replenished (one more with Water Silo, which
/// they give back) and the turn's flags cleared.
pub open spec fn refreshed_for_turn(old: GameState) -> GameState {
    let p = old.cur_player;
    let ps = old.spec_player(p);
    GameState {
        cur_player_water: if ps.has_water_silo { 4u32 } else { 3u32 },
        has_paid_to_draw: false,
        has_played_event: false,
        ..old
    }.with_player(p, PlayerState { has_water_silo: false, ..ps })
}

/// The start of the current player's turn once their events are done: their water is
/// replenished to 3 (4 when they took Water Silo, which they give back), the turn's flags
/// clear, and they draw a card (see [`draw_outcome`]); the game ends when no card can be drawn.
pub open spec fn turn_started(old: GameState, new: GameState, r: Result<(), GameResult>) -> bool {
    drawn_into_hand(refreshed_for_turn(old), new, old.cur_player, r)
}

/// What drawing a card into player `p`'s hand does (see [`draw_outcome`]): the card drawn joins
/// the hand; when no card can be drawn, the game ends.
pub open spec fn drawn_into_hand(old: GameState, new: GameState, p: Player, r: Result<(), GameResult>) -> bool {
    exists|d: Result<PersonOrEventType, GameResult>|
        #![trigger draw_outcome(old, new, d)]
        {
            &&& draw_outcome(old, new, d)
            &&& new.same_but_piles(old, p)
            &&& match d {
                Ok(c) => new.hand_grew(old, p, c) && r is Ok,
                Err(e) => new.spec_player(p) == old.spec_player(p) && r == Err::<(), GameResult>(e),
            }
        }
}

/// Whether a step succeeded, or the game result that ended the game.
pub open spec fn unit_result(r: Result<ChoiceFuture, GameResult>) -> Result<(), GameResult> {
    match r {
        Ok(_) => Ok(()),
        Err(e) => Err(e),
    }
}

/// What running a step does, given the location of the card that the choice just made damaged
/// (if any).
pub open spec fn step_outcome(
    step: Step,
    old: GameState,
    new: GameState,
    value: Option<CardLocation>,
    r: Result<ChoiceFuture, GameResult>,
) -> bool {
    match step {
        Step::DrawIfCamp(p) => if value matches Some(l) && l.spec_row().index() == 0 {
            &&& drawn_into_hand(old, new, p, unit_result(r))
            &&& r matches Ok(f) ==> f == ChoiceFuture::Immediate(None)
        } else {
            new == old && r == Ok::<ChoiceFuture, GameResult>(ChoiceFuture::Immediate(None))
        },
        Step::DamageEnemy(p) => new == old && (r matches Ok(f) && is_damage_future(
            f,
            p,
            false,
            p.spec_other(),
            old.spec_player(p.spec_other()).spec_unprotected_card_locs(),
        )),
        Step::OfferRestore(p) => new == old && (r matches Ok(f) && f is Pending && f->Pending_0 is IconEffect
            && f->Pending_0->IconEffect_0.chooser == p && f->Pending_0->IconEffect_0.effects@ == seq![IconEffect::Restore]
            && f->Pending_0->IconEffect_0.next_steps@.len() == 0),
        Step::DamageCard(loc) => if old.has_card_at(loc) {
            &&& damage_outcome(old, new, loc, false, true, unit_result(r))
            &&& r matches Ok(f) ==> f == ChoiceFuture::Immediate(None)
        } else {
            new == old && r == Ok::<ChoiceFuture, GameResult>(ChoiceFuture::Immediate(None))
        },
        Step::FinishStartTurn => {
            &&& turn_started(old, new, unit_result(r))
            &&& r matches Ok(f) ==> f == ChoiceFuture::Immediate(None)
        },
    }
}

/// What running the steps does, the last one first (see [`step_outcome`]): a step that asks for
/// a choice stops the run, and the choice is offered with the remaining steps waiting for it;
/// with no step left, the current player chooses an action.
pub open spec fn steps_outcome(
    old: GameState,
    new: GameState,
    steps: Seq<Step>,
    value: Option<CardLocation>,
    r: Result<Choice, GameResult>,
) -> bool
    decreases steps.len(),
{
    if steps.len() == 0 {
        new == old && (r matches Ok(c) && is_turn_choice(c, new))
    } else {
        exists|mid: GameState, fr: Result<ChoiceFuture, GameResult>|
            #![trigger step_outcome(steps.last(), old, mid, value, fr)]
            {
                &&& step_outcome(steps.last(), old, mid, value, fr)
                &&& match fr {
                    Err(e) => new == mid && r == Err::<Choice, GameResult>(e),
                    Ok(ChoiceFuture::Pending(c)) => new == mid && (r matches Ok(c2) && c2.same_but_steps(c)
                        && c2.spec_next_steps() == steps.drop_last()),
                    Ok(ChoiceFuture::Immediate(v)) => steps_outcome(mid, new, steps.drop_last(), v, r),
                }
            }
    }
}

/// What advancing the current player's events does: each event moves one slot forward, and
/// the one that leaves the front slot resolves (see [`event_resolution`]); an event card other
/// than Raiders goes to the discard pile as it resolves.
pub open spec fn advance_outcome(old: GameState, new: GameState, r: ChoiceFuture) -> bool {
    let p = old.cur_player;
    let ev = old.spec_player(p).events;
    exists|shifted: GameState|
        #![trigger with_events(old, p, shifted.spec_player(p).events)]
        {
            &&& shifted.spec_player(p).events@ == seq![ev[1], ev[2], None::<EventType>]
            &&& shifted == with_events(old, p, shifted.spec_player(p).events)
            &&& match ev[0] {
                None => new == shifted && r == ChoiceFuture::Immediate(None),
                Some(e) => {
                    &&& e == EventType::Raiders ==> event_resolution(shifted, new, p, e, r)
                    &&& e != EventType::Raiders ==> exists|discarded: GameState|
                        #![trigger event_resolution(discarded, new, p, e, r)]
                        {
                            &&& discarded.discard@ == shifted.discard@.push(PersonOrEventType::Event(e))
                            &&& discarded == GameState { discard: discarded.discard, ..shifted }
                            &&& event_resolution(discarded, new, p, e, r)
                        }
                },
            }
        }
}

/// A column at the end of its owner's turn: the camp and the uninjured people become ready,
/// and their use counts clear.
pub open spec fn column_reset(old: CardColumn, new: CardColumn) -> bool {
    &&& new.camp == (Camp { is_ready: true, times_used: 0, ..old.camp })
    &&& forall|i: int|
        0 <= i < 2 ==> #[trigger] new.person_slots[i] == match old.person_slots[i] {
            Some(q) => Some(q.spec_readied().with_times_used(0)),
            None => None,
        }
}

/// Ending the current player's turn: their columns are reset (see [`column_reset`]) and the
/// turn passes to the other player, whose events advance (see [`advance_outcome`]); a choice
/// that an event asks for is offered next, with the start of the turn waiting for it, else the
/// turn starts (see [`turn_started`]) and the new current player chooses an action.
pub open spec fn end_turn_outcome(old: GameState, new: GameState, r: Result<Choice, GameResult>) -> bool {
    let p = old.cur_player;
    exists|passed: GameState, advanced: GameState, f: ChoiceFuture|
        #![trigger advance_outcome(passed, advanced, f)]
        {
            &&& passed.cur_player == p.spec_other()
            &&& forall|c: int|
                0 <= c < 3 ==> column_reset(old.spec_player(p).columns[c], #[trigger] passed.spec_player(p).columns[c])
            &&& passed.spec_player(p).hand == old.spec_player(p).hand
            &&& passed.spec_player(p).has_water_silo == old.spec_player(p).has_water_silo
            &&& passed.spec_player(p).events == old.spec_player(p).events
            &&& passed.spec_player(p.spec_other()) == old.spec_player(p.spec_other())
            &&& passed.deck == old.deck
            &&& passed.discard == old.discard
            &&& passed.cur_player_water == old.cur_player_water
            &&& passed.has_paid_to_draw == old.has_paid_to_draw
            &&& passed.has_played_event == old.has_played_event
            &&& passed.has_reshuffled_deck == old.has_reshuffled_deck
            &&& advance_outcome(passed, advanced, f)
            &&& match f {
                ChoiceFuture::Pending(c) => new == advanced && (r matches Ok(c2) && c2.same_but_steps(c)
                    && c2.spec_next_steps() == seq![Step::FinishStartTurn]),
                ChoiceFuture::Immediate(_) => exists|started: Result<(), GameResult>|
                    #![trigger turn_started(advanced, new, started)]
                    {
                        &&& turn_started(advanced, new, started)
                        &&& match started {
                            Ok(_) => r matches Ok(c) && is_turn_choice(c, new),
                            Err(e) => r == Err::<Choice, GameResult>(e),
                        }
                    },
            }
        }
}

impl GameState {
    /// Returns whether a card is at the location.
    pub fn is_card_at(&self, loc: CardLocation) -> (r: bool)
        ensures
            r == self.has_card_at(loc),
    {
        let col = &self.player(loc.player()).columns[loc.column().as_usize()];
        match loc.row().to_person_index() {
            Ok(pr) => col.person_slots[pr.as_usize()].is_some(),
            Err(()) => !col.camp.is_destroyed(),
        }
    }

    /// Finishes starting the current player's turn: replenishes water (with one more when the
    /// player took Water Silo), resets the turn state and draws a card.
    pub fn finish_start_turn(&mut self) -> (r: Result<(), GameResult>)
        requires
            old(self).wf(),
        ensures
            final(self).wf(),
            final(self).card_total() == old(self).card_total(),
            final(self).cur_player == old(self).cur_player,
            final(self).cur_player_water == if old(self).spec_player(old(self).cur_player).has_water_silo { 4u32 } else { 3u32 },
            !final(self).has_paid_to_draw,
            !final(self).has_played_event,
            !final(self).spec_player(old(self).cur_player).has_water_silo,
            final(self).spec_player(old(self).cur_player).columns == old(self).spec_player(old(self).cur_player).columns,
            final(self).spec_player(old(self).cur_player).events == old(self).spec_player(old(self).cur_player).events,
            final(self).spec_player(old(self).cur_player.spec_other()) == old(self).spec_player(old(self).cur_player.spec_other()),
            turn_started(*old(self), *final(self), r),
    {
        let p = self.cur_player;
        // replenish water
        self.cur_player_water = 3;
        if self.player(p).has_water_silo {
            self.cur_player_water = 4;
            self.player_mut(p).has_water_silo = false;
        }
        // reset other turn state
        self.has_paid_to_draw = false;
        self.has_played_event = false;
        let ghost refreshed = *self;
        assert(refreshed == refreshed_for_turn(*old(self)));
        // draw a card
        let d = self.draw_card_into_hand(p);
        assert(draw_outcome(refreshed, *self, d));
        assert(self.same_but_piles(refreshed, p));
        let r = match d {
            Ok(_) => Ok(()),
            Err(e) => Err(e),
        };
        assert(match d {
            Ok(c) => self.hand_grew(refreshed, p, c) && r is Ok,
            Err(e) => self.spec_player(p) == refreshed.spec_player(p) && r == Err::<(), GameResult>(e),
        });
        r
    }
}

impl Step {
    /// Runs the step, given the location of the card damaged by the choice just made (if any).
    pub fn run(self, gs: &mut GameState, value: Option<CardLocation>) -> (r: Result<ChoiceFuture, GameResult>)
        requires
            old(gs).wf(),
        ensures
            final(gs).wf(),
            final(gs).card_total() == old(gs).card_total(),
            r matches Ok(f) ==> f.valid_for(*final(gs)) && f.held_cards() == 0,
            match self {
                Step::DrawIfCamp(p) => {
                    &&& !(value matches Some(l) && l.spec_row().index() == 0) ==> *final(gs) == *old(gs) && r == Ok::<ChoiceFuture, GameResult>(ChoiceFuture::Immediate(None))
                    &&& r matches Ok(f) ==> f == ChoiceFuture::Immediate(None)
                },
                Step::DamageEnemy(p) => *final(gs) == *old(gs) && (r matches Ok(f) && is_damage_future(
                    f,
                    p,
                    false,
                    p.spec_other(),
                    old(gs).spec_player(p.spec_other()).spec_unprotected_card_locs(),
                )),
                Step::OfferRestore(p) => *final(gs) == *old(gs) && (r matches Ok(f) && f is Pending && f->Pending_0 is IconEffect
                    && f->Pending_0->IconEffect_0.chooser == p && f->Pending_0->IconEffect_0.effects@ == seq![IconEffect::Restore]),
                Step::DamageCard(loc) => !old(gs).has_card_at(loc) ==> *final(gs) == *old(gs),
                Step::FinishStartTurn => r matches Ok(f) ==> f == ChoiceFuture::Immediate(None),
            },
            step_outcome(self, *old(gs), *final(gs), value, r),
    {
        match self {
            Step::DrawIfCamp(p) => {
                if let Some(loc) = value {
                    if loc.row().is_camp() {
                        let ghost s0 = *gs;
                        let d = gs.draw_card_into_hand(p);
                        assert(draw_outcome(s0, *gs, d));
                        match d {
                            Ok(_) => {},
                            Err(e) => {
                                return Err(e);
                            },
                        }
                    }
                }
                Ok(ChoiceFuture::Immediate(None))
            },
            Step::DamageEnemy(p) => Ok(gs.damage_enemy(p)),
            Step::OfferRestore(p) => {
                let effects = vec![IconEffect::Restore];
                assert(effects@ =~= seq![IconEffect::Restore]);
                Ok(ChoiceFuture::Pending(Choice::IconEffect(IconEffectChoice { chooser: p, effects, next_steps: Vec::new() })))
            },
            Step::DamageCard(loc) => {
                if gs.is_card_at(loc) {
                    match gs.damage_card_at(loc, false, true) {
                        Ok(()) => {},
                        Err(e) => {
                            return Err(e);
                        },
                    }
                }
                Ok(ChoiceFuture::Immediate(None))
            },
            Step::FinishStartTurn => {
                match gs.finish_start_turn() {
                    Ok(()) => Ok(ChoiceFuture::Immediate(None)),
                    Err(e) => Err(e),
                }
            },
        }
    }
}

/// Runs the steps, the last one first, until one of them asks for a choice (which gets the
/// remaining steps attached) or the game ends; with no step left, the current player chooses
/// their next action.
pub fn run_steps(gs: &mut GameState, pending: Vec<Step>, damaged: Option<CardLocation>) -> (r: Result<Choice, GameResult>)
    requires
        old(gs).wf(),
    ensures
        final(gs).wf(),
        outcome_cards(*final(gs), r) <= old(gs).card_total(),
        r matches Ok(c) ==> c.valid_for(*final(gs)),
        pending@.len() == 0 ==> *final(gs) == *old(gs) && (r matches Ok(c) && is_turn_choice(c, *final(gs))),
        steps_outcome(*old(gs), *final(gs), pending@, damaged, r),
{
    let ghost n0 = pending@.len();
    let ghost v0 = damaged;
    let mut steps = pending;
    let mut value = damaged;
    loop
        invariant
            gs.wf(),
            gs.card_total() <= old(gs).card_total(),
            steps@.len() <= n0,
            n0 == pending@.len(),
            v0 == damaged,
            n0 == 0 ==> *gs == *old(gs),
            forall|n: GameState, rr: Result<Choice, GameResult>|
                #[trigger] steps_outcome(*gs, n, steps@, value, rr) ==> steps_outcome(*old(gs), n, pending@, v0, rr),
        decreases steps@.len(),
    {
        let ghost cur = *gs;
        let ghost cur_steps = steps@;
        let ghost cur_value = value;
        match steps.pop() {
            None => {
                let c = Choice::new_actions(gs);
                let r = Ok(c);
                assert(steps_outcome(cur, *gs, cur_steps, cur_value, r));
                assert(steps_outcome(*old(gs), *gs, pending@, v0, r));
                return r;
            },
            Some(step) => {
                let fr = step.run(gs, value);
                let ghost mid = *gs;
                let ghost fr_g = fr;
                assert(cur_steps.last() == step && cur_steps.drop_last() == steps@);
                assert(step_outcome(cur_steps.last(), cur, mid, cur_value, fr_g));
                match fr {
                    Err(e) => {
                        let r = Err(e);
                        assert(steps_outcome(cur, *gs, cur_steps, cur_value, r));
                        assert(steps_outcome(*old(gs), *gs, pending@, v0, r));
                        return r;
                    },
                    Ok(ChoiceFuture::Immediate(v)) => {
                        value = v;
                        proof {
                            assert forall|n: GameState, rr: Result<Choice, GameResult>|
                                #[trigger] steps_outcome(mid, n, steps@, v, rr) implies steps_outcome(*old(gs), n, pending@, v0, rr) by {
                                assert(steps_outcome(cur, n, cur_steps, cur_value, rr));
                            }
                        }
                    },
                    Ok(ChoiceFuture::Pending(c)) => {
                        let r = Ok(c.with_next_steps(steps));
                        assert(steps_outcome(cur, *gs, cur_steps, cur_value, r));
                        assert(steps_outcome(*old(gs), *gs, pending@, v0, r));
                        return r;
                    },
                }
            },
        }
    }
}

impl Choice {
    /// Returns a choice of top-level turn actions for the current player.
    pub fn new_actions(gs: &GameState) -> (r: Choice)
        requires
            gs.wf(),
        ensures
            r.valid_for(*gs),
            r is Action,
            is_turn_choice(r, *gs),
            r.held_cards() == 0,
    {
        let actions = gs.player(gs.cur_player).actions(gs);
        let num_actions = actions.len();
        assert(num_actions > 0);
        Choice::Action(ActionChoice { actions })
    }
}

/// What a person's effect on entering play does.
pub open spec fn enter_play_outcome(
    old: GameState,
    new: GameState,
    pt: PersonType,
    player: Player,
    play_loc: PlayLocation,
    r: Result<ChoiceFuture, GameResult>,
) -> bool {
    match pt {
        PersonType::RepairBot => new == old && (r matches Ok(f) && is_restore_future(f, old, player)),
        PersonType::Vanguard | PersonType::ArgoYesky => new == old && (r matches Ok(f) && is_punk_future(f, old, player)),
        PersonType::WoundedSoldier => exists|mid: GameState, drawn: Result<(), GameResult>|
            #![trigger drawn_into_hand(old, mid, player, drawn)]
            {
                &&& drawn_into_hand(old, mid, player, drawn)
                &&& match drawn {
                    Err(e) => new == mid && r == Err::<ChoiceFuture, GameResult>(e),
                    Ok(_) => exists|loc: CardLocation, d: Result<(), GameResult>|
                        #![trigger damage_outcome(mid, new, loc, false, true, d)]
                        {
                            &&& loc.spec_column() == play_loc.spec_column()
                            &&& loc.spec_row().index() == play_loc.spec_row().index() + 1
                            &&& loc.spec_player() == player
                            &&& damage_outcome(mid, new, loc, false, true, d)
                            &&& r == match d {
                                Err(e) => Err::<ChoiceFuture, GameResult>(e),
                                Ok(_) => Ok::<ChoiceFuture, GameResult>(ChoiceFuture::Immediate(None)),
                            }
                        },
                }
            },
        PersonType::Doomsayer => {
            &&& new == old
            &&& old.spec_player(player.spec_other()).spec_has_event() ==> (r matches Ok(f) && f is Pending
                && f->Pending_0 is MoveEvents && f->Pending_0->MoveEvents_0.chooser == player)
            &&& !old.spec_player(player.spec_other()).spec_has_event() ==> r == Ok::<ChoiceFuture, GameResult>(ChoiceFuture::Immediate(None))
        },
        _ => new == old && r == Ok::<ChoiceFuture, GameResult>(ChoiceFuture::Immediate(None)),
    }
}

impl PersonType {
    /// Performs the person's effect when it enters play at `play_loc` on the player's board:
    /// Repair Bot restores, Vanguard and Argo Yesky gain a punk, Wounded Soldier draws and then
    /// damages itself, and Doomsayer may move the opponent's events back.
    pub fn on_enter_play(self, gs: &mut GameState, player: Player, play_loc: PlayLocation) -> (r: Result<ChoiceFuture, GameResult>)
        requires
            old(gs).wf(),
            person_at(old(gs).spec_player(player), play_loc),
        ensures
            final(gs).wf(),
            final(gs).card_total() == old(gs).card_total(),
            r matches Ok(f) ==> f.valid_for(*final(gs)) && f.held_cards() == 0,
            enter_play_outcome(*old(gs), *final(gs), self, player, play_loc, r),
    {
        match self {
            // when this card enters play, restore
            PersonType::RepairBot => Ok(gs.restore_card(player)),
            // when this card enters play, gain a punk
            PersonType::Vanguard | PersonType::ArgoYesky => Ok(gs.gain_punk(player)),
            PersonType::WoundedSoldier => {
                // when this card enters play, draw, then damage this card
                let ghost s0 = *gs;
                let drawn = gs.draw_card_into_hand(player);
                assert(draw_outcome(s0, *gs, drawn));
                let ghost mid = *gs;
                let ghost drawn_unit = match drawn {
                    Ok(_) => Ok::<(), GameResult>(()),
                    Err(e) => Err::<(), GameResult>(e),
                };
                assert(drawn_into_hand(s0, mid, player, drawn_unit));
                match drawn {
                    Ok(_) => {},
                    Err(e) => {
                        return Err(e);
                    },
                }
                let loc = play_loc.for_player(player);
                let d = gs.damage_card_at(loc, false, true);
                assert(damage_outcome(mid, *gs, loc, false, true, d));
                match d {
                    Ok(()) => Ok(ChoiceFuture::Immediate(None)),
                    Err(e) => Err(e),
                }
            },
            PersonType::Doomsayer => {
                // when this card enters play, the player may move all the opponent's events back
                if gs.player(player.other()).has_event() {
                    Ok(ChoiceFuture::Pending(Choice::MoveEvents(MoveEventsChoice { chooser: player, next_steps: Vec::new() })))
                } else {
                    Ok(ChoiceFuture::Immediate(None))
                }
            },
            _ => Ok(ChoiceFuture::Immediate(None)),
        }
    }
}

/// Player `p`'s column at `loc` holds `person` at `loc`'s row; a person already there moved to
/// the other slot. Nothing else changed.
pub open spec fn placed(old: GameState, new: GameState, p: Player, person: Person, loc: PlayLocation) -> bool {
    let c = loc.spec_column().index() as int;
    let row = loc.spec_row().index() as int;
    let col = old.spec_player(p).columns[c];
    &&& same_but_board(old, new, p)
    &&& new.discard == old.discard
    &&& forall|k: int| 0 <= k < 3 && k != c ==> #[trigger] new.spec_player(p).columns[k] == old.spec_player(p).columns[k]
    &&& new.spec_player(p).columns[c].camp == col.camp
    &&& new.spec_player(p).columns[c].person_slots[row] == Some(person)
    &&& new.spec_player(p).columns[c].person_slots[1 - row] == if col.person_slots[row] is Some {
        col.person_slots[row]
    } else {
        col.person_slots[1 - row]
    }
}

/// Playing the person at the chosen location: it is placed (see [`placed`]), a person card's
/// effect on entering play takes place (see [`enter_play_outcome`]), and the game goes on with
/// the steps that waited for the choice.
pub open spec fn play_select_outcome(c: PlayChoice, old: GameState, new: GameState, option: int, r: Result<Choice, GameResult>) -> bool {
    let loc = c.locations@[option];
    exists|placed_state: GameState, entered: GameState, fr: Result<ChoiceFuture, GameResult>|
        #![trigger placed(old, placed_state, c.chooser, c.person, loc), continued_result(entered, new, fr, c.next_steps@, r)]
        {
            &&& placed(old, placed_state, c.chooser, c.person, loc)
            &&& match c.person {
                Person::NonPunk { person_type, .. } => enter_play_outcome(placed_state, entered, person_type, c.chooser, loc, fr),
                Person::Punk { .. } => entered == placed_state && fr == Ok::<ChoiceFuture, GameResult>(ChoiceFuture::Immediate(None)),
            }
            &&& continued_result(entered, new, fr, c.next_steps@, r)
        }
}

/// Damaging (or destroying) the chosen card (see [`damage_outcome`]); unless that ends the
/// game, the steps that waited for the choice run with its location.
pub open spec fn damage_select_outcome(c: DamageChoice, old: GameState, new: GameState, option: int, r: Result<Choice, GameResult>) -> bool {
    let loc = c.locations@[option];
    exists|mid: GameState, d: Result<(), GameResult>|
        #![trigger damage_outcome(old, mid, loc, c.destroy, true, d)]
        {
            &&& damage_outcome(old, mid, loc, c.destroy, true, d)
            &&& match d {
                Err(e) => new == mid && r == Err::<Choice, GameResult>(e),
                Ok(_) => steps_outcome(mid, new, c.next_steps@, Some(loc), r),
            }
        }
}

/// Player `p`'s card at `loc` was restored: a camp becomes undamaged, a person uninjured.
/// Nothing else changed.
pub open spec fn restored_at(old: GameState, new: GameState, p: Player, loc: PlayerCardLocation) -> bool {
    let c = loc.spec_column().index() as int;
    let row = loc.spec_row().index() as int;
    let col = old.spec_player(p).columns[c];
    &&& same_but_board(old, new, p)
    &&& new.discard == old.discard
    &&& forall|k: int| 0 <= k < 3 && k != c ==> #[trigger] new.spec_player(p).columns[k] == old.spec_player(p).columns[k]
    &&& if row == 0 {
        &&& new.spec_player(p).columns[c].camp == (Camp { status: CampStatus::Undamaged, ..col.camp })
        &&& new.spec_player(p).columns[c].person_slots == col.person_slots
    } else {
        &&& new.spec_player(p).columns[c].camp == col.camp
        &&& new.spec_player(p).columns[c].person_slots[row - 1] == Some(col.person_slots[row - 1]->Some_0.spec_restored())
        &&& new.spec_player(p).columns[c].person_slots[2 - row] == col.person_slots[2 - row]
    }
}

/// Restoring the chosen card (see [`restored_at`]), then running the steps that waited.
pub open spec fn restore_select_outcome(c: RestoreChoice, old: GameState, new: GameState, option: int, r: Result<Choice, GameResult>) -> bool {
    exists|mid: GameState|
        #![trigger restored_at(old, mid, c.chooser, c.locations@[option])]
        restored_at(old, mid, c.chooser, c.locations@[option]) && steps_outcome(mid, new, c.next_steps@, None, r)
}

/// Performing the chosen effect (see [`effect_outcome`]) and going on with the steps that
/// waited; the last option performs none.
pub open spec fn icon_select_outcome(c: IconEffectChoice, old: GameState, new: GameState, option: int, r: Result<Choice, GameResult>) -> bool {
    if option < c.effects@.len() {
        exists|mid: GameState, fr: Result<ChoiceFuture, GameResult>|
            #![trigger effect_outcome(old, mid, c.chooser, c.effects@[option], fr)]
            effect_outcome(old, mid, c.chooser, c.effects@[option], fr) && continued_result(mid, new, fr, c.next_steps@, r)
    } else {
        steps_outcome(old, new, c.next_steps@, None, r)
    }
}

/// Player `p`'s person at `loc` left the board (a person in front of it moved back), and a
/// person card went to their hand (a punk, which is no card, leaves the game). Nothing else
/// changed.
pub open spec fn rescued(old: GameState, new: GameState, p: Player, loc: PlayLocation) -> bool {
    let c = loc.spec_column().index() as int;
    let row = loc.spec_row().index() as int;
    let col = old.spec_player(p).columns[c];
    let ps = old.spec_player(p);
    &&& new.spec_player(p.spec_other()) == old.spec_player(p.spec_other())
    &&& new.deck == old.deck
    &&& new.discard == old.discard
    &&& new.cur_player == old.cur_player
    &&& new.cur_player_water == old.cur_player_water
    &&& new.has_paid_to_draw == old.has_paid_to_draw
    &&& new.has_played_event == old.has_played_event
    &&& new.has_reshuffled_deck == old.has_reshuffled_deck
    &&& new.spec_player(p).has_water_silo == ps.has_water_silo
    &&& new.spec_player(p).events == ps.events
    &&& forall|k: int| 0 <= k < 3 && k != c ==> #[trigger] new.spec_player(p).columns[k] == ps.columns[k]
    &&& new.spec_player(p).columns[c].camp == col.camp
    &&& new.spec_player(p).columns[c].person_slots[0] == if row == 0 { col.person_slots[1] } else { col.person_slots[0] }
    &&& new.spec_player(p).columns[c].person_slots[1] is None
    &&& new.spec_player(p).hand@ == match col.person_slots[row] {
        Some(Person::NonPunk { person_type, .. }) => ps.hand@.insert(PersonOrEventType::Person(person_type).spec_card_id()),
        _ => ps.hand@,
    }
}

/// Returning the chosen person (see [`rescued`]), then running the steps that waited.
pub open spec fn rescue_select_outcome(c: RescuePersonChoice, old: GameState, new: GameState, option: int, r: Result<Choice, GameResult>) -> bool {
    exists|mid: GameState|
        #![trigger rescued(old, mid, c.chooser, c.locations@[option])]
        rescued(old, mid, c.chooser, c.locations@[option]) && steps_outcome(mid, new, c.next_steps@, None, r)
}

/// Moving the opponent's events back one slot (option 0; see [`events_moved_back`]) or not,
/// then running the steps that waited.
pub open spec fn move_select_outcome(c: MoveEventsChoice, old: GameState, new: GameState, option: int, r: Result<Choice, GameResult>) -> bool {
    let other = c.chooser.spec_other();
    if option == 0 {
        exists|mid: GameState|
            #![trigger with_events(old, other, mid.spec_player(other).events)]
            {
                &&& mid.spec_player(other).events@ == events_moved_back(old.spec_player(other).events@)
                &&& mid == with_events(old, other, mid.spec_player(other).events)
                &&& steps_outcome(mid, new, c.next_steps@, None, r)
            }
    } else {
        steps_outcome(old, new, c.next_steps@, None, r)
    }
}

/// Damaging every card in the chosen column of the opponent's board at once (see
/// [`damage_cards_outcome`]); unless that ends the game, the steps that waited run.
pub open spec fn damage_column_select_outcome(
    c: DamageColumnChoice,
    old: GameState,
    new: GameState,
    option: int,
    r: Result<Choice, GameResult>,
) -> bool {
    let col = c.columns@[option];
    let other = c.chooser.spec_other();
    exists|locs: Seq<CardLocation>, mid: GameState, d: Result<(), GameResult>|
        #![trigger damage_cards_outcome(old, mid, locs, false, d)]
        {
            &&& card_loc_pairs(locs) == in_column(col.index(), old.spec_player(other).columns[col.index() as int].spec_card_rows())
            &&& all_on(locs, other)
            &&& damage_cards_outcome(old, mid, locs, false, d)
            &&& match d {
                Err(e) => new == mid && r == Err::<Choice, GameResult>(e),
                Ok(_) => steps_outcome(mid, new, c.next_steps@, None, r),
            }
        }
}

/// What choosing an option does, for each kind of choice.
pub open spec fn select_outcome(c: Choice, old: GameState, new: GameState, option: int, r: Result<Choice, GameResult>) -> bool {
    match c {
        Choice::Action(a) => action_outcome(old, new, a.actions@[option], r),
        Choice::PlayLoc(p) => play_select_outcome(p, old, new, option, r),
        Choice::Damage(d) => damage_select_outcome(d, old, new, option, r),
        Choice::Restore(x) => restore_select_outcome(x, old, new, option, r),
        Choice::IconEffect(i) => icon_select_outcome(i, old, new, option, r),
        Choice::RescuePerson(x) => rescue_select_outcome(x, old, new, option, r),
        Choice::MoveEvents(m) => move_select_outcome(m, old, new, option, r),
        Choice::DamageColumn(d) => damage_column_select_outcome(d, old, new, option, r),
    }
}

impl PlayChoice {
    /// Plays the person at the chosen location (a person already there moves to the other
    /// slot), activates any effect of the person entering play, and goes on with the game.
    #[verifier::spinoff_prover]
    #[verifier::rlimit(50)]
    pub fn select(&self, gs: &mut GameState, option: usize) -> (r: Result<Choice, GameResult>)
        requires
            old(gs).wf(),
            Choice::PlayLoc(*self).valid_for(*old(gs)),
            option < self.locations@.len(),
        ensures
            final(gs).wf(),
            outcome_cards(*final(gs), r) <= old(gs).card_total() + Choice::PlayLoc(*self).held_cards(),
            r matches Ok(c) ==> c.valid_for(*final(gs)),
            play_select_outcome(*self, *old(gs), *final(gs), option as int, r),
    {
        let loc = self.locations[option];
        let c = loc.column().as_usize();
        let row = loc.row().as_usize();
        let ghost s0 = *gs;
        let ps = gs.player_mut(self.chooser);
        let old_person = ps.columns[c].person_slots[row];
        ps.columns[c].person_slots[row] = Some(self.person);
        if let Some(op) = old_person {
            // a person already in the slot moves to the other slot
            ps.columns[c].person_slots[1 - row] = Some(op);
        }
        proof {
            lemma_column_change(s0, *gs, self.chooser, c as int);
            assert(column_cards(gs.spec_player(self.chooser).columns[c as int]) == column_cards(
                s0.spec_player(self.chooser).columns[c as int]) + slot_card_count(Some(self.person)));
            assert(person_at(gs.spec_player(self.chooser), loc));
        }
        let ghost placed_state = *gs;
        assert(placed(s0, placed_state, self.chooser, self.person, loc));
        // activate any "when this card enters play" effect of the person
        let fr = match self.person {
            Person::NonPunk { person_type, .. } => person_type.on_enter_play(gs, self.chooser, loc),
            Person::Punk { .. } => Ok(ChoiceFuture::Immediate(None)),
        };
        let ghost entered = *gs;
        let ghost fr_g = fr;
        let r = match fr {
            Ok(f) => f.continue_with(gs, copy_vec(&self.next_steps)),
            Err(e) => Err(e),
        };
        assert(continued_result(entered, *gs, fr_g, self.next_steps@, r));
        r
    }
}

impl DamageChoice {
    /// Damages (or destroys) the chosen card, moving a person in front of a destroyed back
    /// person back, and goes on with the game; the steps waiting for the choice get the
    /// location of the damaged card.
    pub fn select(&self, gs: &mut GameState, option: usize) -> (r: Result<Choice, GameResult>)
        requires
            old(gs).wf(),
            Choice::Damage(*self).valid_for(*old(gs)),
            option < self.locations@.len(),
        ensures
            final(gs).wf(),
            outcome_cards(*final(gs), r) <= old(gs).card_total(),
            r matches Ok(c) ==> c.valid_for(*final(gs)),
            damage_select_outcome(*self, *old(gs), *final(gs), option as int, r),
    {
        let loc = self.locations[option];
        // damage the card
        let ghost s0 = *gs;
        let d = gs.damage_card_at(loc, self.destroy, true);
        assert(damage_outcome(s0, *gs, loc, self.destroy, true, d));
        match d {
            Ok(()) => {},
            Err(e) => {
                return Err(e);
            },
        }
        // advance the game state until the next choice
        run_steps(gs, copy_vec(&self.next_steps), Some(loc))
    }
}

impl RestoreChoice {
    /// Restores the chosen card and goes on with the game.
    #[verifier::spinoff_prover]
    pub fn select(&self, gs: &mut GameState, option: usize) -> (r: Result<Choice, GameResult>)
        requires
            old(gs).wf(),
            Choice::Restore(*self).valid_for(*old(gs)),
            option < self.locations@.len(),
        ensures
            final(gs).wf(),
            outcome_cards(*final(gs), r) <= old(gs).card_total(),
            r matches Ok(c) ==> c.valid_for(*final(gs)),
            restore_select_outcome(*self, *old(gs), *final(gs), option as int, r),
    {
        let loc = self.locations[option];
        let ghost s0 = *gs;
        gs.player_mut(self.chooser).restore_card_at(loc);
        proof {
            lemma_column_change(s0, *gs, self.chooser, loc.spec_column().index() as int);
            assert(restored_at(s0, *gs, self.chooser, loc));
        }
        run_steps(gs, copy_vec(&self.next_steps), None)
    }
}

impl IconEffectChoice {
    /// Performs the chosen effect (the last option performs none) and goes on with the game.
    pub fn select(&self, gs: &mut GameState, option: usize) -> (r: Result<Choice, GameResult>)
        requires
            old(gs).wf(),
            Choice::IconEffect(*self).valid_for(*old(gs)),
            option <= self.effects@.len(),
        ensures
            final(gs).wf(),
            outcome_cards(*final(gs), r) <= old(gs).card_total(),
            r matches Ok(c) ==> c.valid_for(*final(gs)),
            icon_select_outcome(*self, *old(gs), *final(gs), option as int, r),
    {
        if option < self.effects.len() {
            let effect = self.effects[option];
            let ghost s0 = *gs;
            let fr = effect.perform(gs, self.chooser);
            assert(effect_outcome(s0, *gs, self.chooser, self.effects@[option as int], fr));
            match fr {
                Ok(f) => f.continue_with(gs, copy_vec(&self.next_steps)),
                Err(e) => Err(e),
            }
        } else {
            run_steps(gs, copy_vec(&self.next_steps), None)
        }
    }
}

impl RescuePersonChoice {
    /// Returns the chosen person to the chooser's hand (a punk, which is no card, leaves the
    /// game), moves a person in front of it back, and goes on with the game.
    #[verifier::spinoff_prover]
    pub fn select(&self, gs: &mut GameState, option: usize) -> (r: Result<Choice, GameResult>)
        requires
            old(gs).wf(),
            Choice::RescuePerson(*self).valid_for(*old(gs)),
            option < self.locations@.len(),
        ensures
            final(gs).wf(),
            outcome_cards(*final(gs), r) <= old(gs).card_total(),
            r matches Ok(c) ==> c.valid_for(*final(gs)),
            rescue_select_outcome(*self, *old(gs), *final(gs), option as int, r),
    {
        let loc = self.locations[option];
        let ghost s0 = *gs;
        let person = gs.player_mut(self.chooser).remove_person_at(loc);
        let ghost s1 = *gs;
        proof {
            lemma_column_change(s0, s1, self.chooser, loc.spec_column().index() as int);
        }
        if let Person::NonPunk { person_type, .. } = person {
            let card = PersonOrEventType::Person(person_type);
            proof {
                lemma_card_id_round_trip(card);
            }
            gs.player_mut(self.chooser).hand.add_one(card.card_id());
            proof {
                let h = gs.spec_player(self.chooser).hand@;
                assert forall|id: u32| #[trigger] h.count(id) > 0 implies is_deck_card_id(id) by {
                    if id != card.spec_card_id() {
                        assert(s1.spec_player(self.chooser).hand@.count(id) > 0);
                    }
                }
                assert(gs.card_total() == s1.card_total() + 1);
            }
        }
        assert(rescued(s0, *gs, self.chooser, loc));
        run_steps(gs, copy_vec(&self.next_steps), None)
    }
}

impl MoveEventsChoice {
    /// Moves all the opponent's events back one slot (option 0) or leaves them (option 1), and
    /// goes on with the game.
    pub fn select(&self, gs: &mut GameState, option: usize) -> (r: Result<Choice, GameResult>)
        requires
            old(gs).wf(),
            option < 2,
        ensures
            final(gs).wf(),
            outcome_cards(*final(gs), r) <= old(gs).card_total(),
            r matches Ok(c) ==> c.valid_for(*final(gs)),
            move_select_outcome(*self, *old(gs), *final(gs), option as int, r),
    {
        if option == 0 {
            let ghost s0 = *gs;
            let other = self.chooser.other();
            let ps = gs.player_mut(other);
            ps.move_events_back();
            proof {
                assert(board_card_count(gs.spec_player(other)) == board_card_count(s0.spec_player(other)));
                assert(*gs == with_events(s0, other, gs.spec_player(other).events));
            }
        }
        run_steps(gs, copy_vec(&self.next_steps), None)
    }
}

impl DamageColumnChoice {
    /// Damages every card in the chosen column of the opponent's board, and goes on with the
    /// game.
    pub fn select(&self, gs: &mut GameState, option: usize) -> (r: Result<Choice, GameResult>)
        requires
            old(gs).wf(),
            Choice::DamageColumn(*self).valid_for(*old(gs)),
            option < self.columns@.len(),
        ensures
            final(gs).wf(),
            outcome_cards(*final(gs), r) <= old(gs).card_total(),
            r matches Ok(c) ==> c.valid_for(*final(gs)),
            damage_column_select_outcome(*self, *old(gs), *final(gs), option as int, r),
    {
        let col = self.columns[option];
        let other = self.chooser.other();
        let rows = gs.player(other).columns[col.as_usize()].card_rows();
        let mut board_locs: Vec<PlayerCardLocation> = Vec::new();
        let mut i: usize = 0;
        while i < rows.len()
            invariant
                i <= rows@.len(),
                loc_pairs(board_locs@) == in_column(col.index(), rows@.map_values(|x: CardRowIndex| x.index())).subrange(0, i as int),
            decreases rows@.len() - i,
        {
            let ghost before = board_locs@;
            board_locs.push(PlayerCardLocation::new(col, rows[i]));
            assert(loc_pairs(board_locs@) =~= loc_pairs(before).push((col.index(), rows@[i as int].index())));
            assert(in_column(col.index(), rows@.map_values(|x: CardRowIndex| x.index())).subrange(0, i + 1) =~= in_column(col.index(), rows@.map_values(|x: CardRowIndex| x.index())).subrange(0, i as int).push((col.index(), rows@[i as int].index())));
            i += 1;
        }
        assert(in_column(col.index(), rows@.map_values(|x: CardRowIndex| x.index())).subrange(0, i as int) =~= in_column(col.index(), rows@.map_values(|x: CardRowIndex| x.index())));
        let locs = locs_on_board(&board_locs, other);
        proof {
            let ps = gs.spec_player(other);
            let c = col.index() as int;
            ps.columns[c].lemma_card_rows();
            let pairs = card_loc_pairs(locs@);
            assert(pairs == in_column(col.index(), ps.columns[c].spec_card_rows()));
            lemma_locs_on_one_board(*gs, locs@, other, false);
            assert forall|a: int, b: int| 0 <= a < pairs.len() && 0 <= b < pairs.len() && a != b implies pairs[a] != pairs[b] by {
                if a < b {
                    assert(ps.columns[c].spec_card_rows()[a] < ps.columns[c].spec_card_rows()[b]);
                } else {
                    assert(ps.columns[c].spec_card_rows()[b] < ps.columns[c].spec_card_rows()[a]);
                }
            }
            assert forall|k: int| 0 <= k < locs@.len() implies gs.has_card_at(#[trigger] locs@[k]) by {
                assert(pairs[k] == (col.index(), ps.columns[c].spec_card_rows()[k]));
            }
        }
        let ghost s0 = *gs;
        let ghost locs_g = locs@;
        let d = gs.damage_cards_at(locs, false);
        assert(damage_cards_outcome(s0, *gs, locs_g, false, d));
        match d {
            Ok(()) => run_steps(gs, copy_vec(&self.next_steps), None),
            Err(e) => Err(e),
        }
    }
}

impl GameState {
    /// Resolves the current player's first event (if any), then advances any other events.
    /// Returns a future that may represent choices from the event resolution.
    pub fn advance_cur_events(&mut self) -> (r: ChoiceFuture)
        requires
            old(self).wf(),
        ensures
            final(self).wf(),
            final(self).card_total() == old(self).card_total(),
            r.valid_for(*final(self)),
            r.held_cards() == 0,
            final(self).cur_player == old(self).cur_player,
            advance_outcome(*old(self), *final(self), r),
    {
        let p = self.cur_player;
        let ghost s0 = *self;
        // take the first event (if any), and advance any other events
        let events = self.player(p).events;
        let first = events[0];
        let ps = self.player_mut(p);
        ps.events[0] = events[1];
        ps.events[1] = events[2];
        ps.events[2] = None;
        let ghost shifted = *self;
        proof {
            assert(board_card_count(self.spec_player(p)) + super::event_card_count(first) == board_card_count(s0.spec_player(p)));
            assert(shifted.spec_player(p).events@ =~= seq![events[1], events[2], None::<EventType>]);
            assert(shifted == with_events(s0, p, shifted.spec_player(p).events));
        }
        // resolve the first event (if any)
        match first {
            Some(event) => {
                // discard it if it's not Raiders
                if event != EventType::Raiders {
                    self.discard.push(PersonOrEventType::Event(event));
                    assert(super::piles_wf(*self));
                }
                let ghost discarded = *self;
                let r = event.resolve(self, p);
                assert(event_resolution(discarded, *self, p, event, r));
                r
            },
            None => ChoiceFuture::Immediate(None),
        }
    }

    /// Ends the current player's turn and starts the next player's turn: the ending player's
    /// camps and uninjured people become ready and their use counts clear, the turn passes, the
    /// new current player's events advance, and their turn starts.
    pub fn end_turn(&mut self) -> (r: Result<Choice, GameResult>)
        requires
            old(self).wf(),
        ensures
            final(self).wf(),
            outcome_cards(*final(self), r) <= old(self).card_total(),
            r matches Ok(c) ==> c.valid_for(*final(self)),
            end_turn_outcome(*old(self), *final(self), r),
    {
        let p = self.cur_player;
        let ghost s0 = *self;
        // set all camps and uninjured people to be ready, and reset use counts
        let ps = self.player_mut(p);
        ps.columns[0].end_turn_reset();
        ps.columns[1].end_turn_reset();
        ps.columns[2].end_turn_reset();
        proof {
            let a = s0.spec_player(p);
            let b = self.spec_player(p);
            assert forall|c: int, r: int| 0 <= c < 3 && 0 <= r < 2 implies slot_card_count(#[trigger] b.columns[c].person_slots[r])
                == slot_card_count(a.columns[c].person_slots[r]) by {
                assert(b.columns[c].person_slots[r] == match a.columns[c].person_slots[r] {
                    Some(q) => Some(q.spec_readied().with_times_used(0)),
                    None => None,
                });
            }
            assert(board_card_count(b) == board_card_count(a));
        }
        // switch whose turn it is
        self.cur_player = p.other();
        let ghost passed = *self;
        // resolve/advance events, then start the turn
        let f = self.advance_cur_events();
        let ghost advanced = *self;
        let r = match f {
            ChoiceFuture::Pending(c) => {
                // the turn starts once the event's choice is made
                let mut steps: Vec<Step> = Vec::new();
                steps.push(Step::FinishStartTurn);
                assert(steps@ =~= seq![Step::FinishStartTurn]);
                Ok(c.with_next_steps(steps))
            },
            ChoiceFuture::Immediate(_) => {
                let started = self.finish_start_turn();
                let ghost started_ghost = started;
                assert(turn_started(advanced, *self, started_ghost));
                match started {
                    Ok(()) => Ok(Choice::new_actions(self)),
                    Err(e) => Err(e),
                }
            },
        };
        assert(advance_outcome(passed, advanced, f));
        r
    }
}

impl ActionChoice {
    /// Returns the set of actions that can be taken by the current player.
    pub fn actions(&self) -> (r: &Vec<Action>)
        ensures
            r@ == self.actions@,
    {
        &self.actions
    }

    /// Performs the chosen action, updating the game state and returning the next choice.
    pub fn select(&self, gs: &mut GameState, option: usize) -> (r: Result<Choice, GameResult>)
        requires
            old(gs).wf(),
            Choice::Action(*self).valid_for(*old(gs)),
            option < self.actions@.len(),
        ensures
            final(gs).wf(),
            outcome_cards(*final(gs), r) <= old(gs).card_total(),
            r matches Ok(c) ==> c.valid_for(*final(gs)),
            action_outcome(*old(gs), *final(gs), self.actions@[option as int], r),
    {
        let action = self.actions[option];
        action.perform(gs)
    }
}

impl Choice {
    /// Returns the player who makes the choice.
    pub fn chooser(&self, gs: &GameState) -> (r: Player)
        ensures
            r == self.spec_chooser(*gs),
    {
        match self {
            Choice::Action(_) => gs.cur_player,
            Choice::PlayLoc(c) => c.chooser,
            Choice::Damage(c) => c.chooser,
            Choice::Restore(c) => c.chooser,
            Choice::IconEffect(c) => c.chooser,
            Choice::RescuePerson(c) => c.chooser,
            Choice::MoveEvents(c) => c.chooser,
            Choice::DamageColumn(c) => c.chooser,
        }
    }

    /// Returns the number of options to choose from (at most the largest `usize`).
    pub fn num_options(&self) -> (r: usize)
        ensures
            self.spec_num_options() <= usize::MAX ==> r == self.spec_num_options(),
            self.spec_num_options() > usize::MAX ==> r == usize::MAX,
    {
        match self {
            Choice::Action(c) => c.actions.len(),
            Choice::PlayLoc(c) => c.locations.len(),
            Choice::Damage(c) => c.locations.len(),
            Choice::Restore(c) => c.locations.len(),
            Choice::IconEffect(c) => {
                if c.effects.len() < usize::MAX {
                    c.effects.len() + 1
                } else {
                    usize::MAX
                }
            },
            Choice::RescuePerson(c) => c.locations.len(),
            Choice::MoveEvents(_) => 2,
            Choice::DamageColumn(c) => c.columns.len(),
        }
    }

    /// Applies the chosen option, advancing the game state until the next choice (or the end
    /// of the game). Every option of a valid choice can be chosen, the game state stays well
    /// formed, no card enters the game, and the next choice is valid again.
    pub fn select(&self, gs: &mut GameState, option: usize) -> (r: Result<Choice, GameResult>)
        requires
            old(gs).wf(),
            self.valid_for(*old(gs)),
            option < self.spec_num_options(),
        ensures
            final(gs).wf(),
            outcome_cards(*final(gs), r) <= old(gs).card_total() + self.held_cards(),
            r matches Ok(c) ==> c.valid_for(*final(gs)),
            select_outcome(*self, *old(gs), *final(gs), option as int, r),
    {
        match self {
            Choice::Action(c) => c.select(gs, option),
            Choice::PlayLoc(c) => c.select(gs, option),
            Choice::Damage(c) => c.select(gs, option),
            Choice::Restore(c) => c.select(gs, option),
            Choice::IconEffect(c) => c.select(gs, option),
            Choice::RescuePerson(c) => c.select(gs, option),
            Choice::MoveEvents(c) => c.select(gs, option),
            Choice::DamageColumn(c) => c.select(gs, option),
        }
    }
}

impl PlayChoice {
    /// Returns the player who is playing the card.
    pub fn chooser(&self) -> (r: Player)
        ensures
            r == self.chooser,
    {
        self.chooser
    }

    /// Returns the person to be played.
    pub fn person(&self) -> (r: &Person)
        ensures
            *r == self.person,
    {
        &self.person
    }

    /// Returns the possible play locations.
    pub fn locations(&self) -> (r: &Vec<PlayLocation>)
        ensures
            r@ == self.locations@,
    {
        &self.locations
    }

    /// Creates a future that asks the player where to play the person.
    pub fn future(chooser: Player, person: Person, locations: Vec<PlayLocation>) -> (r: ChoiceFuture)
        ensures
            r is Pending,
            r->Pending_0 is PlayLoc,
            r->Pending_0->PlayLoc_0.chooser == chooser,
            r->Pending_0->PlayLoc_0.person == person,
            r->Pending_0->PlayLoc_0.locations@ == locations@,
            r->Pending_0->PlayLoc_0.next_steps@.len() == 0,
    {
        ChoiceFuture::Pending(Choice::PlayLoc(PlayChoice { chooser, person, locations, next_steps: Vec::new() }))
    }
}

impl DamageChoice {
    /// Returns the player who must choose a card to damage.
    pub fn chooser(&self) -> (r: Player)
        ensures
            r == self.chooser,
    {
        self.chooser
    }

    /// Returns whether the chosen card will be destroyed instead of just damaged.
    pub fn destroy(&self) -> (r: bool)
        ensures
            r == self.destroy,
    {
        self.destroy
    }

    /// Returns the locations of the cards that can be damaged.
    pub fn locations(&self) -> (r: &Vec<CardLocation>)
        ensures
            r@ == self.locations@,
    {
        &self.locations
    }
}

impl RestoreChoice {
    /// Returns the player who must choose a card to restore.
    pub fn chooser(&self) -> (r: Player)
        ensures
            r == self.chooser,
    {
        self.chooser
    }

    /// Returns the locations of the cards that can be restored.
    pub fn locations(&self) -> (r: &Vec<PlayerCardLocation>)
        ensures
            r@ == self.locations@,
    {
        &self.locations
    }

    /// Creates a future that asks the player to restore one of the given cards.
    pub fn future(chooser: Player, locations: Vec<PlayerCardLocation>) -> (r: ChoiceFuture)
        ensures
            r is Pending,
            r->Pending_0 is Restore,
            r->Pending_0->Restore_0.chooser == chooser,
            r->Pending_0->Restore_0.locations@ == locations@,
            r->Pending_0->Restore_0.next_steps@.len() == 0,
    {
        ChoiceFuture::Pending(Choice::Restore(RestoreChoice { chooser, locations, next_steps: Vec::new() }))
    }
}

impl IconEffectChoice {
    /// Returns the effects to choose from (the option after the last performs none).
    pub fn effects(&self) -> (r: &Vec<IconEffect>)
        ensures
            r@ == self.effects@,
    {
        &self.effects
    }
}

impl RescuePersonChoice {
    /// Returns the locations of the people that can be returned to the hand.
    pub fn locations(&self) -> (r: &Vec<PlayLocation>)
        ensures
            r@ == self.locations@,
    {
        &self.locations
    }
}

impl DamageColumnChoice {
    /// Returns the opponent's columns that can be chosen.
    pub fn columns(&self) -> (r: &Vec<ColumnIndex>)
        ensures
            r@ == self.columns@,
    {
        &self.columns
    }
}

} // verus!
