//! The rules of the game: the game state and the actions the players take.

pub mod abilities;
pub mod actions;
pub mod camps;
pub mod controllers;
pub mod choices;
pub mod events;
pub mod game;
pub mod locations;
pub mod observed_state;
pub mod people;
pub mod player_state;
pub mod views;

use rand::seq::SliceRandom;
use vstd::prelude::*;
use vstd::multiset::Multiset;

use self::abilities::Ability;
use self::events::EventType;
use self::locations::{CardLocation, CardRowIndex, ColumnIndex, Player, PlayLocation, PlayerCardLocation};
use self::people::{PersonType, SpecialType};
use self::player_state::{CampStatus, CardColumn, NonPunkStatus, Person, PlayerState};

verus! {

/// The result of a finished game.
#[derive(Debug, PartialEq, Eq, Structural, Clone, Copy)]
pub enum GameResult {
    P1Wins,
    P2Wins,
    Tie,
}

/// Enum representing basic icon effects for abilities and junk effects.
#[derive(Debug, Copy, Clone, PartialEq, Eq, Structural, Hash)]
pub enum IconEffect {
    Damage,
    Injure,
    Restore,
    Draw,
    Water,
    GainPunk,
    Raid,
}

/// Enum for playable card types (people or events).
#[derive(Debug, Copy, Clone, PartialEq, Eq, Structural, Hash)]
pub enum PersonOrEventType {
    Person(PersonType),
    Event(EventType),
}

/// The identity number of the Strafe event card.
pub const STRAFE_CARD_ID: u32 = 100;

/// The identity number of the Raiders event.
pub const RAIDERS_CARD_ID: u32 = 101;

impl PersonOrEventType {
    /// The identity number of the card type, as a specification.
    pub open spec fn spec_card_id(self) -> u32 {
        match self {
            PersonOrEventType::Person(p) => p.spec_index(),
            PersonOrEventType::Event(EventType::Strafe) => STRAFE_CARD_ID,
            PersonOrEventType::Event(EventType::Raiders) => RAIDERS_CARD_ID,
        }
    }

    /// The identity number of the card type, by which a [`Cards`](crate::cards::Cards) counts it.
    #[verifier::when_used_as_spec(spec_card_id)]
    pub fn card_id(self) -> (r: u32)
        ensures
            r == self.spec_card_id(),
    {
        match self {
            PersonOrEventType::Person(p) => p.index(),
            PersonOrEventType::Event(EventType::Strafe) => STRAFE_CARD_ID,
            PersonOrEventType::Event(EventType::Raiders) => RAIDERS_CARD_ID,
        }
    }

    /// The card type with the given identity number, as a specification.
    pub open spec fn spec_from_card_id(id: u32) -> Option<PersonOrEventType> {
        if id == STRAFE_CARD_ID {
            Some(PersonOrEventType::Event(EventType::Strafe))
        } else if id == RAIDERS_CARD_ID {
            Some(PersonOrEventType::Event(EventType::Raiders))
        } else {
            match PersonType::spec_from_index(id) {
                Some(p) => Some(PersonOrEventType::Person(p)),
                None => None,
            }
        }
    }

    /// The card type with the given identity number.
    pub fn from_card_id(id: u32) -> (r: Option<PersonOrEventType>)
        ensures
            r == Self::spec_from_card_id(id),
    {
        if id == STRAFE_CARD_ID {
            Some(PersonOrEventType::Event(EventType::Strafe))
        } else if id == RAIDERS_CARD_ID {
            Some(PersonOrEventType::Event(EventType::Raiders))
        } else {
            match PersonType::from_index(id) {
                Some(p) => Some(PersonOrEventType::Person(p)),
                None => None,
            }
        }
    }

    /// Whether this card can be in the deck or a hand (everything but Raiders).
    pub open spec fn is_deck_card(self) -> bool {
        self != PersonOrEventType::Event(EventType::Raiders)
    }

    /// The card's junk effect, as a specification.
    pub open spec fn spec_junk_effect(self) -> IconEffect {
        match self {
            PersonOrEventType::Person(p) => p.spec_junk_effect(),
            PersonOrEventType::Event(e) => e.spec_junk_effect(),
        }
    }

    /// Returns the card's junk effect.
    #[verifier::when_used_as_spec(spec_junk_effect)]
    pub fn junk_effect(self) -> (r: IconEffect)
        requires
            self.is_deck_card(),
        ensures
            r == self.spec_junk_effect(),
    {
        match self {
            PersonOrEventType::Person(p) => p.junk_effect(),
            PersonOrEventType::Event(e) => e.junk_effect(),
        }
    }

    /// The water cost to play this card, as a specification.
    pub open spec fn spec_cost(self) -> u32 {
        match self {
            PersonOrEventType::Person(p) => p.spec_cost(),
            PersonOrEventType::Event(e) => e.spec_cost(),
        }
    }

    /// Returns the water cost to play this card.
    #[verifier::when_used_as_spec(spec_cost)]
    pub fn cost(self) -> (r: u32)
        requires
            self.is_deck_card(),
        ensures
            r == self.spec_cost(),
    {
        match self {
            PersonOrEventType::Person(p) => p.cost(),
            PersonOrEventType::Event(e) => e.cost(),
        }
    }
}

/// Card identity numbers name card types one to one.
pub proof fn lemma_card_id_round_trip(c: PersonOrEventType)
    ensures
        PersonOrEventType::spec_from_card_id(c.spec_card_id()) == Some(c),
{
    if let PersonOrEventType::Person(p) = c {
        people::lemma_person_index_round_trip(p);
    }
}

/// The card type found by identity number has that number.
pub proof fn lemma_card_id_inverse(id: u32)
    ensures
        PersonOrEventType::spec_from_card_id(id) matches Some(c) ==> c.spec_card_id() == id,
{
    people::lemma_person_from_index(id);
}


broadcast use {vstd::multiset::group_multiset_axioms, vstd::seq_lib::group_to_multiset_ensures};

/// A bound on the number of cards in a game: they are counted in a `usize`.
pub const MAX_CARDS: usize = usize::MAX;

/// 1 if the slot holds a person card (punks are not cards), else 0.
pub open spec fn slot_card_count(o: Option<Person>) -> nat {
    if o matches Some(Person::NonPunk { .. }) {
        1
    } else {
        0
    }
}

/// 1 if the event slot holds an event card (Raiders is not a card of the deck), else 0.
pub open spec fn event_card_count(o: Option<EventType>) -> nat {
    if o == Some(EventType::Strafe) {
        1
    } else {
        0
    }
}

/// The number of cards on a board: person cards and event cards.
pub open spec fn board_card_count(ps: PlayerState) -> nat {
    slot_card_count(ps.columns[0].person_slots[0]) + slot_card_count(ps.columns[0].person_slots[1])
        + slot_card_count(ps.columns[1].person_slots[0]) + slot_card_count(
        ps.columns[1].person_slots[1],
    ) + slot_card_count(ps.columns[2].person_slots[0]) + slot_card_count(
        ps.columns[2].person_slots[1],
    ) + event_card_count(ps.events[0]) + event_card_count(ps.events[1]) + event_card_count(
        ps.events[2],
    )
}

/// Every card identity with copies in the hand names a card of the deck.
pub open spec fn hand_wf(hand: Multiset<u32>) -> bool {
    forall|id: u32|
        #[trigger] hand.count(id) > 0 ==> is_deck_card_id(id)
}

/// The identity number names a card of the deck.
pub open spec fn is_deck_card_id(id: u32) -> bool {
    match PersonOrEventType::spec_from_card_id(id) {
        Some(c) => c.is_deck_card(),
        None => false,
    }
}

/// `shuffle` from `rand::seq::SliceRandom` with the thread-local generator: permutes the cards
/// in an order that depends on chance. Only that the result is a permutation is stated.
#[verifier::external_body]
pub(crate) fn shuffle_cards(v: &mut Vec<PersonOrEventType>)
    ensures
        final(v)@.to_multiset() == old(v)@.to_multiset(),
        final(v)@.len() == old(v)@.len(),
{
    v.shuffle(&mut rand::thread_rng());
}

/// The state of a game.
pub struct GameState {
    pub player1: PlayerState,
    pub player2: PlayerState,
    /// The draw pile; the top card is the last one.
    pub deck: Vec<PersonOrEventType>,
    /// The discard pile.
    pub discard: Vec<PersonOrEventType>,
    /// The identity of the player whose turn it currently is.
    pub cur_player: Player,
    /// The amount of water that the current player has available for use.
    pub cur_player_water: u32,
    /// Whether the current player has used the generic "pay 2 water to draw a card" ability
    /// this turn.
    pub has_paid_to_draw: bool,
    /// Whether the current player has played an event this turn.
    pub has_played_event: bool,
    /// Whether the deck has been reshuffled from the discard pile in this game.
    pub has_reshuffled_deck: bool,
}

impl GameState {
    /// The state of the given player.
    pub open spec fn spec_player(self, which: Player) -> PlayerState {
        match which {
            Player::Player1 => self.player1,
            Player::Player2 => self.player2,
        }
    }

    /// The number of cards in the game: in the deck, the discard pile, the hands and on the
    /// boards.
    pub open spec fn card_total(self) -> nat {
        self.deck@.len() + self.discard@.len() + self.player1.hand@.len() + self.player2.hand@.len()
            + board_card_count(self.player1) + board_card_count(self.player2)
    }

    /// The game state is well formed: the piles and hands hold cards of the deck only, and the
    /// number of cards is bounded.
    pub open spec fn wf(self) -> bool {
        &&& forall|i: int| 0 <= i < self.deck@.len() ==> (#[trigger] self.deck@[i]).is_deck_card()
        &&& forall|i: int| 0 <= i < self.discard@.len() ==> (#[trigger] self.discard@[i]).is_deck_card()
        &&& hand_wf(self.player1.hand@)
        &&& hand_wf(self.player2.hand@)
        &&& self.card_total() <= MAX_CARDS
    }

    /// The state with the given player's state replaced.
    pub open spec fn with_player(self, which: Player, ps: PlayerState) -> GameState {
        match which {
            Player::Player1 => GameState { player1: ps, ..self },
            Player::Player2 => GameState { player2: ps, ..self },
        }
    }

    /// Returns the state of the given player.
    pub fn player(&self, which: Player) -> (r: &PlayerState)
        ensures
            *r == self.spec_player(which),
    {
        match which {
            Player::Player1 => &self.player1,
            Player::Player2 => &self.player2,
        }
    }

    /// Returns the state of the given player as mutable.
    pub fn player_mut(&mut self, which: Player) -> (r: &mut PlayerState)
        ensures
            *r == old(self).spec_player(which),
            *final(self) == old(self).with_player(which, *final(r)),
    {
        match which {
            Player::Player1 => &mut self.player1,
            Player::Player2 => &mut self.player2,
        }
    }

    /// Subtracts the given amount of water from the current player's pool.
    pub fn spend_water(&mut self, amount: u32)
        requires
            old(self).cur_player_water >= amount,
        ensures
            *final(self) == (GameState { cur_player_water: (old(self).cur_player_water - amount) as u32, ..*old(self) }),
    {
        self.cur_player_water -= amount;
    }

    /// Adds 1 water to the current player's pool (the pool stops at its maximum).
    pub fn gain_water(&mut self)
        ensures
            *final(self) == (GameState {
                cur_player_water: if old(self).cur_player_water < u32::MAX {
                    (old(self).cur_player_water + 1) as u32
                } else {
                    u32::MAX
                },
                ..*old(self)
            }),
    {
        if self.cur_player_water < u32::MAX {
            self.cur_player_water += 1;
        }
    }

    /// Draws a card from the top of the deck. When the deck is empty, the discard pile is
    /// shuffled into a new deck the first time; the second time (or when there is nothing to
    /// shuffle) the game ends in a tie.
    pub fn draw_card(&mut self) -> (r: Result<PersonOrEventType, GameResult>)
        ensures
            final(self).player1 == old(self).player1,
            final(self).player2 == old(self).player2,
            final(self).cur_player == old(self).cur_player,
            final(self).cur_player_water == old(self).cur_player_water,
            final(self).has_paid_to_draw == old(self).has_paid_to_draw,
            final(self).has_played_event == old(self).has_played_event,
            draw_outcome(*old(self), *final(self), r),
            old(self).wf() ==> piles_wf(*final(self)) && (r matches Ok(c) ==> c.is_deck_card()),
    {
        if self.deck.len() == 0 {
            if self.discard.len() == 0 {
                // Both the deck and discard are empty. This could legitimately happen if one or
                // more players hoard a huge amount of cards in their hand; the game is stopped,
                // since it couldn't meaningfully continue.
                return Err(GameResult::Tie);
            }
            // check for tie condition
            if self.has_reshuffled_deck {
                return Err(GameResult::Tie);
            } else {
                // reshuffle the discard pile into the deck
                std::mem::swap(&mut self.deck, &mut self.discard);
                shuffle_cards(&mut self.deck);
                self.has_reshuffled_deck = true;
            }
        }
        let ghost d = self.deck@;
        let c = self.deck.pop().unwrap();
        assert(d == self.deck@.push(c));
        proof {
            if old(self).wf() {
                if old(self).deck@.len() > 0 {
                    assert(d[d.len() - 1] == c);
                } else {
                    assert forall|i: int| 0 <= i < d.len() implies (#[trigger] d[i]).is_deck_card() by {
                        assert(d.to_multiset().count(d[i]) > 0);
                        assert(old(self).discard@.contains(d[i]));
                    }
                    assert(d[d.len() - 1] == c);
                }
            }
        }
        Ok(c)
    }
}

/// The deck and discard pile hold cards of the deck only.
pub open spec fn piles_wf(gs: GameState) -> bool {
    &&& forall|i: int| 0 <= i < gs.deck@.len() ==> (#[trigger] gs.deck@[i]).is_deck_card()
    &&& forall|i: int| 0 <= i < gs.discard@.len() ==> (#[trigger] gs.discard@[i]).is_deck_card()
}

/// What drawing a card does to the deck and discard pile: the top card of the deck is drawn;
/// an empty deck is first refilled from a shuffle of the discard pile, once per game; with no
/// card to draw the game ends in a tie.
pub open spec fn draw_outcome(
    old: GameState,
    new: GameState,
    r: Result<PersonOrEventType, GameResult>,
) -> bool {
    &&& old.deck@.len() > 0 ==> {
        &&& r == Ok::<PersonOrEventType, GameResult>(old.deck@.last())
        &&& new.deck@ == old.deck@.drop_last()
        &&& new.discard@ == old.discard@
        &&& new.has_reshuffled_deck == old.has_reshuffled_deck
    }
    &&& old.deck@.len() == 0 ==> (old.discard@.len() == 0 || old.has_reshuffled_deck) ==> {
        &&& r == Err::<PersonOrEventType, GameResult>(GameResult::Tie)
        &&& new.deck@ == old.deck@
        &&& new.discard@ == old.discard@
        &&& new.has_reshuffled_deck == old.has_reshuffled_deck
    }
    &&& old.deck@.len() == 0 ==> old.discard@.len() > 0 ==> !old.has_reshuffled_deck ==> {
        &&& r matches Ok(c) && new.deck@.push(c).to_multiset() == old.discard@.to_multiset()
        &&& new.discard@.len() == 0
        &&& new.has_reshuffled_deck
    }
}


/// How many more cards can be drawn before the game ends in a tie: the deck, and the discard
/// pile too while it has not been shuffled back into the deck yet.
pub open spec fn draws_left(gs: GameState) -> nat {
    gs.deck@.len() + if gs.has_reshuffled_deck {
        0
    } else {
        gs.discard@.len()
    }
}

/// A draw fails, with a tie, exactly when no card is left to draw; a draw that succeeds leaves
/// one card fewer to draw.
pub proof fn lemma_draw_step(old: GameState, new: GameState, r: Result<PersonOrEventType, GameResult>)
    requires
        draw_outcome(old, new, r),
    ensures
        r is Err <==> draws_left(old) == 0,
        r is Err ==> r == Err::<PersonOrEventType, GameResult>(GameResult::Tie),
        r is Ok ==> draws_left(new) + 1 == draws_left(old),
{
    if old.deck@.len() == 0 && old.discard@.len() > 0 && !old.has_reshuffled_deck {
        let c = r->Ok_0;
        assert(new.deck@.push(c).to_multiset().len() == new.deck@.push(c).len());
        assert(old.discard@.to_multiset().len() == old.discard@.len());
    }
}

/// What damaging a person leaves in its slot: a punk, or a person destroyed outright or
/// already injured, is removed; another person is injured.
pub open spec fn damaged_person(p: Person, destroy: bool) -> Option<Person> {
    match p {
        Person::Punk { .. } => None,
        Person::NonPunk { person_type, status, times_used } => if destroy || status
            == NonPunkStatus::Injured {
            None
        } else {
            Some(Person::NonPunk { person_type, status: NonPunkStatus::Injured, times_used })
        },
    }
}

/// Damaging a person: a punk is removed, and so is a person who was already injured or whom the
/// damage destroys; any other person is injured and stays in its slot as the same card.
pub proof fn lemma_damaged_person(p: Person, destroy: bool)
    ensures
        damaged_person(p, destroy) is None <==> (p is Punk || destroy || p.spec_is_injured()),
        damaged_person(p, destroy) matches Some(q) ==> q.spec_is_injured() && (p matches Person::NonPunk {
            person_type,
            ..
        } && q matches Person::NonPunk { person_type: t, .. } && t == person_type),
{
}

/// What each icon effect needs to be used, from its card text: damage, drawing and gaining water
/// can always be used; injuring needs an enemy person; restoring needs a damaged camp or an
/// injured person of one's own; gaining a punk needs an empty person slot.
pub proof fn lemma_icon_effect_conditions(gs: GameState, p: Player)
    ensures
        gs.spec_effect_can_perform(p, IconEffect::Damage),
        gs.spec_effect_can_perform(p, IconEffect::Draw),
        gs.spec_effect_can_perform(p, IconEffect::Water),
        gs.spec_effect_can_perform(p, IconEffect::Injure) <==> exists|c: int, r: int|
            0 <= c < 3 && 0 <= r < 2 && #[trigger] gs.spec_player(p.spec_other()).columns[c].person_slots[r] is Some,
        gs.spec_effect_can_perform(p, IconEffect::Restore) <==> exists|c: int, row: int|
            0 <= c < 3 && 0 <= row < 3 && #[trigger] gs.spec_player(p).spec_is_restorable_at(c, row),
        gs.spec_effect_can_perform(p, IconEffect::GainPunk) <==> exists|c: int, r: int|
            0 <= c < 3 && 0 <= r < 2 && #[trigger] gs.spec_player(p).columns[c].person_slots[r] is None,
{
    let them = gs.spec_player(p.spec_other());
    let me = gs.spec_player(p);
    if them.spec_people().len() > 0 {
        if them.columns[0].spec_people().len() > 0 {
            if them.columns[0].person_slots[0] is None {
                assert(them.columns[0].person_slots[1] is Some);
            }
        } else if them.columns[1].spec_people().len() > 0 {
            if them.columns[1].person_slots[0] is None {
                assert(them.columns[1].person_slots[1] is Some);
            }
        } else {
            assert(them.columns[2].spec_people().len() > 0);
            if them.columns[2].person_slots[0] is None {
                assert(them.columns[2].person_slots[1] is Some);
            }
        }
    }
    me.lemma_restorable_cards_are_damaged();
    me.lemma_restorable_card_locs();
    let locs = me.spec_restorable_card_locs();
    if locs.len() > 0 {
        let l = locs[0];
        assert(me.spec_is_restorable_at(l.0 as int, l.1 as int));
    }
    if exists|c: int, row: int| 0 <= c < 3 && 0 <= row < 3 && #[trigger] me.spec_is_restorable_at(c, row) {
        let (c, row) = choose|c: int, row: int| 0 <= c < 3 && 0 <= row < 3 && #[trigger] me.spec_is_restorable_at(c, row);
        assert(locs.contains((c as nat, row as nat)));
    }
}

/// The cards that damaging a person puts on the discard pile: the card of a destroyed person.
pub open spec fn discarded_by_damage(p: Person, destroy: bool) -> Seq<PersonOrEventType> {
    match p {
        Person::NonPunk { person_type, status, .. } => if destroy || status
            == NonPunkStatus::Injured {
            seq![PersonOrEventType::Person(person_type)]
        } else {
            Seq::empty()
        },
        Person::Punk { .. } => Seq::empty(),
    }
}

/// A column after the card at the given card row is damaged (or destroyed), without moving any
/// person.
pub open spec fn column_damaged(col: CardColumn, row: int, destroy: bool) -> CardColumn {
    if row == 0 {
        CardColumn {
            camp: player_state::Camp {
                status: player_state::damaged_camp_status(col.camp.status, destroy),
                ..col.camp
            },
            ..col
        }
    } else {
        col.with_slot(row - 1, damaged_person(col.person_slots[row - 1]->Some_0, destroy))
    }
}

/// A column after a person in front of an empty back slot moves back.
pub open spec fn column_shifted(col: CardColumn) -> CardColumn {
    if col.person_slots[0] is None {
        CardColumn { person_slots: [col.person_slots[1], None], ..col }
    } else {
        col
    }
}

/// A column after the card at the given card row is damaged, with a person in front of a
/// destroyed back person moving back when `shift` holds.
pub open spec fn column_after_damage(col: CardColumn, row: int, destroy: bool, shift: bool) -> CardColumn {
    if shift && row == 1 {
        column_shifted(column_damaged(col, row, destroy))
    } else {
        column_damaged(col, row, destroy)
    }
}

/// The number of person cards in a column (punks are not cards).
pub open spec fn column_cards(col: CardColumn) -> nat {
    slot_card_count(col.person_slots[0]) + slot_card_count(col.person_slots[1])
}

/// Changing one column of one board changes the number of cards in the game by the change of
/// the column's person cards, and keeps the game well formed while the number stays bounded.
pub proof fn lemma_column_change(old: GameState, new: GameState, p: Player, c: int)
    requires
        0 <= c < 3,
        new.spec_player(p.spec_other()) == old.spec_player(p.spec_other()),
        new.deck == old.deck,
        new.discard == old.discard,
        new.spec_player(p).hand == old.spec_player(p).hand,
        new.spec_player(p).events == old.spec_player(p).events,
        forall|k: int| 0 <= k < 3 && k != c ==> #[trigger] new.spec_player(p).columns[k] == old.spec_player(p).columns[k],
    ensures
        new.card_total() + column_cards(old.spec_player(p).columns[c]) == old.card_total() + column_cards(new.spec_player(p).columns[c]),
        old.wf() && new.card_total() <= MAX_CARDS ==> new.wf(),
{
    let a = old.spec_player(p);
    let b = new.spec_player(p);
    assert(b.columns[0] == a.columns[0] || c == 0);
    assert(b.columns[1] == a.columns[1] || c == 1);
    assert(b.columns[2] == a.columns[2] || c == 2);
}

/// The result of a game won by the opponent of the given player.
pub open spec fn loss_for(p: Player) -> GameResult {
    match p {
        Player::Player1 => GameResult::P2Wins,
        Player::Player2 => GameResult::P1Wins,
    }
}

/// Everything but the given player's columns and the discard pile is the same.
pub open spec fn same_but_board(a: GameState, b: GameState, pl: Player) -> bool {
    &&& b.spec_player(pl.spec_other()) == a.spec_player(pl.spec_other())
    &&& b.deck == a.deck
    &&& b.cur_player == a.cur_player
    &&& b.cur_player_water == a.cur_player_water
    &&& b.has_paid_to_draw == a.has_paid_to_draw
    &&& b.has_played_event == a.has_played_event
    &&& b.has_reshuffled_deck == a.has_reshuffled_deck
    &&& b.spec_player(pl).hand == a.spec_player(pl).hand
    &&& b.spec_player(pl).has_water_silo == a.spec_player(pl).has_water_silo
    &&& b.spec_player(pl).events == a.spec_player(pl).events
}

/// What damaging (or destroying) the card at `loc` does: its column changes as
/// [`column_after_damage`] says, a person card that leaves the board goes to the discard pile,
/// and the game ends with its owner's loss when their last camp is destroyed.
pub open spec fn damage_outcome(
    old: GameState,
    new: GameState,
    loc: CardLocation,
    destroy: bool,
    shift: bool,
    r: Result<(), GameResult>,
) -> bool {
    let pl = loc.spec_player();
    let c = loc.spec_column().index() as int;
    let row = loc.spec_row().index() as int;
    let col = old.spec_player(pl).columns[c];
    &&& same_but_board(old, new, pl)
    &&& forall|k: int| 0 <= k < 3 && k != c ==> #[trigger] new.spec_player(pl).columns[k] == old.spec_player(pl).columns[k]
    &&& new.spec_player(pl).columns[c] == column_after_damage(col, row, destroy, shift)
    &&& if row == 0 {
        &&& new.discard == old.discard
        &&& r == if new.spec_player(pl).spec_all_camps_destroyed() {
            Err(loss_for(pl))
        } else {
            Ok(())
        }
    } else {
        &&& new.discard@ == old.discard@ + discarded_by_damage(col.person_slots[row - 1]->Some_0, destroy)
        &&& r is Ok
    }
}

impl GameState {
    /// Whether a card (a person, or a non-destroyed camp) is at the location.
    pub open spec fn has_card_at(self, loc: CardLocation) -> bool {
        self.spec_player(loc.spec_player()).spec_has_card(
            loc.spec_column().index() as int,
            loc.spec_row().index() as int,
        )
    }

    /// Damages or destroys the card at the given location.
    /// If `destroy` is true, the card is always destroyed; otherwise, it is damaged.
    /// If `shift` is true and the card is destroyed, any person in front of it is shifted back.
    /// Damaging the last camp of a player ends the game with that player's loss.
    #[verifier::spinoff_prover]
    #[verifier::rlimit(40)]
    pub fn damage_card_at(&mut self, loc: CardLocation, destroy: bool, shift: bool) -> (r: Result<(), GameResult>)
        requires
            old(self).has_card_at(loc),
        ensures
            damage_outcome(*old(self), *final(self), loc, destroy, shift, r),
            final(self).card_total() == old(self).card_total(),
            old(self).wf() ==> final(self).wf(),
    {
        let pl = loc.player();
        let c = loc.column().as_usize();
        let ghost s0 = *self;
        let ghost row = loc.spec_row().index() as int;
        match loc.row().to_person_index() {
            Ok(person_row_index) => {
                let pr = person_row_index.as_usize();
                let ps = self.player_mut_direct(pl);
                let mut col = ps.columns[c];
                let ghost col0 = col;
                let person = col.person_slots[pr].unwrap();
                let mut discarded: Option<PersonOrEventType> = None;
                let new_slot = match person {
                    // a punk is destroyed
                    Person::Punk { .. } => None,
                    Person::NonPunk { person_type, status, times_used } => {
                        if destroy || status == NonPunkStatus::Injured {
                            // the person was killed; discard the card and empty the slot
                            discarded = Some(PersonOrEventType::Person(person_type));
                            None
                        } else {
                            // injure the person
                            Some(Person::NonPunk { person_type, status: NonPunkStatus::Injured, times_used })
                        }
                    },
                };
                col.person_slots[pr] = new_slot;
                // if we're supposed to shift, and if the target person was destroyed and behind
                // another person, shift the other person back
                if shift && new_slot.is_none() && pr == 0 {
                    col.person_slots[0] = col.person_slots[1];
                    col.person_slots[1] = None;
                }
                proof {
                    let t = column_after_damage(col0, row, destroy, shift);
                    assert(row == pr + 1);
                    assert(col.camp == t.camp);
                    assert(col.person_slots[0] == t.person_slots[0]);
                    assert(col.person_slots[1] == t.person_slots[1]);
                    assert(col.person_slots =~= t.person_slots);
                }
                ps.columns[c] = col;
                if let Some(card) = discarded {
                    self.discard.push(card);
                }
                assert(self.discard@ =~= s0.discard@ + discarded_by_damage(person, destroy));
                assert(board_card_count(self.spec_player(pl)) + self.discard@.len()
                    == board_card_count(s0.spec_player(pl)) + s0.discard@.len());
                Ok(())
            },
            Err(()) => {
                // damage/destroy the camp in the given column and check for win condition
                let no_camps_left = self.player_mut_direct(pl).damage_camp_at(loc.column(), destroy);
                assert(self.spec_player(pl).columns[c as int] == column_after_damage(
                    s0.spec_player(pl).columns[c as int], row, destroy, shift));
                if no_camps_left {
                    return Err(match pl {
                        Player::Player1 => GameResult::P2Wins,
                        Player::Player2 => GameResult::P1Wins,
                    });
                }
                Ok(())
            },
        }
    }

    /// Returns the state of the given player as mutable.
    fn player_mut_direct(&mut self, which: Player) -> (r: &mut PlayerState)
        ensures
            *r == old(self).spec_player(which),
            final(self).spec_player(which) == *final(r),
            final(self).spec_player(which.spec_other()) == old(self).spec_player(which.spec_other()),
            final(self).deck == old(self).deck,
            final(self).discard == old(self).discard,
            final(self).cur_player == old(self).cur_player,
            final(self).cur_player_water == old(self).cur_player_water,
            final(self).has_paid_to_draw == old(self).has_paid_to_draw,
            final(self).has_played_event == old(self).has_played_event,
            final(self).has_reshuffled_deck == old(self).has_reshuffled_deck,
    {
        match which {
            Player::Player1 => &mut self.player1,
            Player::Player2 => &mut self.player2,
        }
    }
}


/// An action that can be performed by a player during their turn.
#[derive(Debug, Clone, Copy, PartialEq, Eq, Structural)]
pub enum Action {
    /// Play a person card from the hand onto the board.
    /// If the card is "Holdout", then this action only allows playing into a column
    /// whose camp is not destroyed.
    PlayPerson(PersonType),
    /// Play a "Holdout" person into a column with a destroyed camp, for free.
    PlayHoldout(PersonType),
    /// Play an event card from the hand onto the event queue.
    PlayEvent(EventType),
    /// Draw a card (costs 2 water).
    DrawCard,
    /// Junk a card from the hand to use its junk effect.
    JunkCard(PersonOrEventType),
    /// Use an ability of a ready person.
    UsePersonAbility(Ability, PlayLocation),
    /// Use an ability of a ready camp.
    UseCampAbility(Ability, ColumnIndex),
    /// End the current player's turn, taking Water Silo if possible.
    EndTurn,
}

impl GameState {
    /// The number of turns before an event resolves if the player plays it now: Zeto Khan's
    /// trait makes the first event played in a turn resolve at once.
    pub open spec fn spec_effective_resolve_turns(self, p: Player, resolve_turns: u8) -> u8 {
        if !self.has_played_event && self.spec_player(p).spec_has_special_person(SpecialType::ZetoKhan) {
            0
        } else {
            resolve_turns
        }
    }

    /// Whether the player can play an event that normally resolves in the given number of turns.
    pub open spec fn spec_can_play_event(self, p: Player, resolve_turns: u8) -> bool {
        self.spec_player(p).spec_can_play_event(self.spec_effective_resolve_turns(p, resolve_turns))
    }

    /// Whether the player can use the raid effect to play or advance their Raiders event.
    pub open spec fn spec_can_raid(self, p: Player) -> bool {
        let events = self.spec_player(p).events;
        if events[0] == Some(EventType::Raiders) {
            true
        } else if events[1] == Some(EventType::Raiders) {
            events[0] is None
        } else if events[2] == Some(EventType::Raiders) {
            events[1] is None
        } else {
            self.spec_can_play_event(p, EventType::Raiders.spec_resolve_turns())
        }
    }

    /// Whether the icon effect can be performed by the player.
    pub open spec fn spec_effect_can_perform(self, p: Player, effect: IconEffect) -> bool {
        match effect {
            IconEffect::Damage => true,
            IconEffect::Injure => self.spec_player(p.spec_other()).spec_people().len() > 0,
            IconEffect::Restore => self.spec_player(p).spec_restorable_card_locs().len() > 0,
            IconEffect::Draw => true,
            IconEffect::Water => true,
            IconEffect::GainPunk => self.spec_player(p).spec_has_empty_person_slot(),
            IconEffect::Raid => self.spec_can_raid(p),
        }
    }

    /// Performing the icon effect cannot fail: a raid needs room for the Raiders event.
    pub open spec fn spec_effect_ok(self, p: Player, effect: IconEffect) -> bool {
        effect == IconEffect::Raid ==> self.spec_can_raid(p)
    }

    /// The current player's hand holds a card of the given type.
    pub open spec fn hand_has(self, card: PersonOrEventType) -> bool {
        self.spec_player(self.cur_player).hand@.count(card.spec_card_id()) > 0
    }

    /// The current player can perform the action.
    pub open spec fn spec_action_ok(self, action: Action) -> bool {
        let p = self.cur_player;
        let ps = self.spec_player(p);
        match action {
            Action::PlayPerson(pt) => {
                &&& self.hand_has(PersonOrEventType::Person(pt))
                &&& self.cur_player_water >= pt.spec_cost()
                &&& if pt.spec_special_type() == SpecialType::Holdout {
                    ps.spec_has_empty_holdout_slot(false)
                } else {
                    ps.spec_has_empty_person_slot()
                }
            },
            Action::PlayHoldout(pt) => {
                &&& self.hand_has(PersonOrEventType::Person(pt))
                &&& ps.spec_has_empty_holdout_slot(true)
            },
            Action::PlayEvent(e) => {
                &&& e != EventType::Raiders
                &&& self.hand_has(PersonOrEventType::Event(e))
                &&& self.cur_player_water >= e.spec_cost()
                &&& self.spec_can_play_event(p, e.spec_resolve_turns())
            },
            Action::DrawCard => self.cur_player_water >= 2,
            Action::JunkCard(card) => {
                &&& card.is_deck_card()
                &&& self.hand_has(card)
                &&& self.spec_effect_ok(p, card.spec_junk_effect())
            },
            Action::UsePersonAbility(ability, loc) => {
                &&& loc.spec_column().index() < 3
                &&& loc.spec_row().index() < 2
                &&& ps.columns[loc.spec_column().index() as int].person_slots[loc.spec_row().index() as int] is Some
                &&& self.cur_player_water >= ability.spec_cost()
                &&& ability.spec_perform_ok(self, p)
                &&& ability != Ability::Custom(abilities::CustomAbility::Cannon)
            },
            Action::UseCampAbility(ability, col) => {
                &&& col.index() < 3
                &&& ps.columns[col.index() as int].camp.status != CampStatus::Destroyed
                &&& self.cur_player_water >= ability.spec_cost()
                &&& ability.spec_perform_ok(self, p)
            },
            Action::EndTurn => true,
        }
    }
}

} // verus!
