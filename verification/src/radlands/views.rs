//! Game logic from one player's perspective: targeting enemy cards, restoring, drawing and
//! playing cards.

use vstd::prelude::*;

use super::choices::{
    all_on, can_place_at, card_loc_pairs, is_damage_future, Choice, ChoiceFuture, DamageChoice,
    PlayChoice, RestoreChoice,
};
use super::locations::{CardLocation, CardRowIndex, ColumnIndex, Player, PersonRowIndex, PlayLocation, PlayerCardLocation};
use super::events::EventType;
use super::people::SpecialType;
use super::player_state::{
    damaged_camp_status, if_seq, in_column, lemma_in_columns, loc_pairs, play_loc_pairs, Camp,
    CampStatus, CardColumn, Person, PlayerState,
};
use super::{
    IconEffect, board_card_count, column_damaged, column_shifted, damaged_person, discarded_by_damage,
    draw_outcome, hand_wf, loss_for, is_deck_card_id, lemma_card_id_round_trip, GameResult, GameState,
    PersonOrEventType, MAX_CARDS,
};

verus! {

broadcast use {vstd::multiset::group_multiset_axioms, vstd::seq_lib::group_to_multiset_ensures};

/// Puts the locations within a board on the given player's board.
pub fn locs_on_board(v: &Vec<PlayerCardLocation>, owner: Player) -> (r: Vec<CardLocation>)
    ensures
        card_loc_pairs(r@) == loc_pairs(v@),
        all_on(r@, owner),
        r@.len() == v@.len(),
{
    let mut r: Vec<CardLocation> = Vec::new();
    let mut i: usize = 0;
    while i < v.len()
        invariant
            i <= v@.len(),
            r@.len() == i,
            card_loc_pairs(r@) == loc_pairs(v@).subrange(0, i as int),
            all_on(r@, owner),
        decreases v@.len() - i,
    {
        let ghost before = r@;
        r.push(v[i].for_player(owner));
        assert(card_loc_pairs(r@) =~= card_loc_pairs(before).push(loc_pairs(v@)[i as int]));
        assert(loc_pairs(v@).subrange(0, i + 1) =~= loc_pairs(v@).subrange(0, i as int).push(
            loc_pairs(v@)[i as int],
        ));
        i += 1;
    }
    assert(loc_pairs(v@).subrange(0, i as int) =~= loc_pairs(v@));
    r
}

/// A damage future over cards that exist is valid for the game state.
pub proof fn lemma_damage_future_valid(
    gs: GameState,
    r: ChoiceFuture,
    chooser: Player,
    destroy: bool,
    owner: Player,
    pairs: Seq<(nat, nat)>,
)
    requires
        is_damage_future(r, chooser, destroy, owner, pairs),
        gs.card_total() <= MAX_CARDS,
        forall|i: int|
            0 <= i < pairs.len() ==> gs.spec_player(owner).spec_has_card(
                #[trigger] pairs[i].0 as int,
                pairs[i].1 as int,
            ),
    ensures
        r.valid_for(gs),
{
    if pairs.len() > 0 {
        let c = r->Pending_0->Damage_0;
        assert forall|i: int| 0 <= i < c.locations@.len() implies gs.has_card_at(
            #[trigger] c.locations@[i],
        ) by {
            assert(card_loc_pairs(c.locations@)[i] == pairs[i]);
            assert(c.locations@[i].spec_player() == owner);
            assert(gs.spec_player(owner).spec_has_card(pairs[i].0 as int, pairs[i].1 as int));
        }
    }
}

impl GameState {
    /// Has this player choose and then damage a card from a given list of locations.
    /// Returns the location of the card that was damaged.
    pub fn choose_and_damage_card(player: Player, locs: Vec<CardLocation>) -> (r: ChoiceFuture)
        ensures
            locs@.len() == 0 ==> r == ChoiceFuture::Immediate(None),
            locs@.len() > 0 ==> {
                &&& r is Pending
                &&& r->Pending_0 is Damage
                &&& r->Pending_0->Damage_0.chooser == player
                &&& r->Pending_0->Damage_0.destroy == false
                &&& r->Pending_0->Damage_0.locations@ == locs@
                &&& r->Pending_0->Damage_0.next_steps@.len() == 0
            },
    {
        DamageChoice::future(player, false, locs)
    }

    /// Has this player choose and then destroy a card from a given list of locations.
    pub fn choose_and_destroy_card(player: Player, locs: Vec<CardLocation>) -> (r: ChoiceFuture)
        ensures
            locs@.len() == 0 ==> r == ChoiceFuture::Immediate(None),
            locs@.len() > 0 ==> {
                &&& r is Pending
                &&& r->Pending_0 is Damage
                &&& r->Pending_0->Damage_0.chooser == player
                &&& r->Pending_0->Damage_0.destroy == true
                &&& r->Pending_0->Damage_0.locations@ == locs@
                &&& r->Pending_0->Damage_0.next_steps@.len() == 0
            },
    {
        DamageChoice::future(player, true, locs)
    }

    /// Has this player damage an unprotected opponent card.
    pub fn damage_enemy(&self, player: Player) -> (r: ChoiceFuture)
        requires
            self.card_total() <= MAX_CARDS,
        ensures
            is_damage_future(
                r,
                player,
                false,
                player.spec_other(),
                self.spec_player(player.spec_other()).spec_unprotected_card_locs(),
            ),
            r.valid_for(*self),
    {
        let other = player.other();
        let target_locs = locs_on_board(&self.player(other).unprotected_card_locs(), other);
        let r = DamageChoice::future(player, false, target_locs);
        proof {
            self.spec_player(other).lemma_unprotected_card_locs();
            lemma_damage_future_valid(*self, r, player, false, other, self.spec_player(other).spec_unprotected_card_locs());
        }
        r
    }
}

impl GameState {
    /// The player's state keeps its board and gets one more card of the given type in hand.
    pub open spec fn hand_grew(self, old: GameState, p: Player, card: PersonOrEventType) -> bool {
        &&& self.spec_player(p).hand@ == old.spec_player(p).hand@.insert(card.spec_card_id())
        &&& self.spec_player(p).has_water_silo == old.spec_player(p).has_water_silo
        &&& self.spec_player(p).columns == old.spec_player(p).columns
        &&& self.spec_player(p).events == old.spec_player(p).events
    }

    /// Everything but the deck, discard pile and reshuffle flag is the same, and the given
    /// player's hand may differ.
    pub open spec fn same_but_piles(self, old: GameState, p: Player) -> bool {
        &&& self.spec_player(p.spec_other()) == old.spec_player(p.spec_other())
        &&& self.cur_player == old.cur_player
        &&& self.cur_player_water == old.cur_player_water
        &&& self.has_paid_to_draw == old.has_paid_to_draw
        &&& self.has_played_event == old.has_played_event
    }

    /// Draws a card from the deck and puts it in this player's hand.
    /// Returns the type of the drawn card.
    pub fn draw_card_into_hand(&mut self, player: Player) -> (r: Result<PersonOrEventType, GameResult>)
        requires
            old(self).wf(),
        ensures
            final(self).wf(),
            final(self).card_total() == old(self).card_total(),
            draw_outcome(*old(self), *final(self), r),
            final(self).same_but_piles(*old(self), player),
            match r {
                Ok(c) => final(self).hand_grew(*old(self), player, c),
                Err(_) => final(self).spec_player(player) == old(self).spec_player(player),
            },
    {
        let ghost s0 = *self;
        let card = match self.draw_card() {
            Ok(c) => c,
            Err(e) => {
                return Err(e);
            },
        };
        proof {
            if s0.deck@.len() == 0 {
                assert(self.deck@.push(card).to_multiset().len() == s0.discard@.to_multiset().len());
            }
            lemma_card_id_round_trip(card);
        }
        let ps = match player {
            Player::Player1 => &mut self.player1,
            Player::Player2 => &mut self.player2,
        };
        ps.hand.add_one(card.card_id());
        proof {
            let h = self.spec_player(player).hand@;
            assert forall|id: u32| #[trigger] h.count(id) > 0 implies is_deck_card_id(id) by {
                if id != card.spec_card_id() {
                    assert(s0.spec_player(player).hand@.count(id) > 0);
                }
            }
            assert(hand_wf(h));
        }
        Ok(card)
    }
}

/// The locations of the camps of a board that are not destroyed.
pub open spec fn intact_camp_locs(ps: PlayerState) -> Seq<(nat, nat)> {
    in_column(0, if_seq(ps.columns[0].camp.status != CampStatus::Destroyed, 0nat)) + in_column(
        1,
        if_seq(ps.columns[1].camp.status != CampStatus::Destroyed, 0nat),
    ) + in_column(2, if_seq(ps.columns[2].camp.status != CampStatus::Destroyed, 0nat))
}

/// The unprotected camps of a board.
pub open spec fn unprotected_camp_locs(ps: PlayerState) -> Seq<(nat, nat)> {
    ps.spec_unprotected_card_locs().filter(|l: (nat, nat)| l.1 == 0)
}

/// The card locations of a board's people.
pub open spec fn person_card_locs(ps: PlayerState) -> Seq<(nat, nat)> {
    ps.spec_person_locs().map_values(|l: (nat, nat)| (l.0, l.1 + 1))
}

/// Every camp listed as intact holds a camp that is not destroyed, and none is listed twice.
pub proof fn lemma_intact_camp_locs(ps: PlayerState)
    ensures
        forall|i: int|
            0 <= i < intact_camp_locs(ps).len() ==> ps.spec_has_card(
                #[trigger] intact_camp_locs(ps)[i].0 as int,
                intact_camp_locs(ps)[i].1 as int,
            ) && intact_camp_locs(ps)[i].1 == 0,
        intact_camp_locs(ps).no_duplicates(),
        intact_camp_locs(ps).len() == 0 <==> ps.spec_all_camps_destroyed(),
{
    lemma_in_columns(
        if_seq(ps.columns[0].camp.status != CampStatus::Destroyed, 0nat),
        if_seq(ps.columns[1].camp.status != CampStatus::Destroyed, 0nat),
        if_seq(ps.columns[2].camp.status != CampStatus::Destroyed, 0nat),
        |c: nat, r: nat| ps.spec_has_card(c as int, r as int) && r == 0,
    );
}

/// Every location of a person listed by `person_card_locs` holds a person.
pub proof fn lemma_person_card_locs(ps: PlayerState)
    ensures
        forall|i: int|
            0 <= i < person_card_locs(ps).len() ==> ps.spec_has_card(
                #[trigger] person_card_locs(ps)[i].0 as int,
                person_card_locs(ps)[i].1 as int,
            ),
        person_card_locs(ps).len() == ps.spec_people().len(),
{
    ps.lemma_person_locs();
    assert forall|i: int| 0 <= i < person_card_locs(ps).len() implies ps.spec_has_card(
        #[trigger] person_card_locs(ps)[i].0 as int,
        person_card_locs(ps)[i].1 as int,
    ) by {
        assert(ps.spec_person_locs()[i].1 < 2);
    }
}

impl GameState {
    /// Has this player damage any opponent card.
    pub fn damage_any_enemy(&self, player: Player) -> (r: ChoiceFuture)
        requires
            self.card_total() <= MAX_CARDS,
        ensures
            is_damage_future(r, player, false, player.spec_other(), self.spec_player(player.spec_other()).spec_card_locs()),
            r.valid_for(*self),
    {
        let other = player.other();
        let target_locs = locs_on_board(&self.player(other).card_locs(), other);
        let r = DamageChoice::future(player, false, target_locs);
        proof {
            self.spec_player(other).lemma_card_locs();
            lemma_damage_future_valid(*self, r, player, false, other, self.spec_player(other).spec_card_locs());
        }
        r
    }

    /// Has this player damage an unprotected opponent camp.
    pub fn damage_unprotected_camp(&self, player: Player) -> (r: ChoiceFuture)
        requires
            self.card_total() <= MAX_CARDS,
        ensures
            is_damage_future(r, player, false, player.spec_other(), unprotected_camp_locs(self.spec_player(player.spec_other()))),
            r.valid_for(*self),
    {
        let other = player.other();
        let all = self.player(other).unprotected_card_locs();
        let ghost src = self.spec_player(other).spec_unprotected_card_locs();
        let ghost pred = |l: (nat, nat)| l.1 == 0;
        let mut camps: Vec<PlayerCardLocation> = Vec::new();
        let mut i: usize = 0;
        while i < all.len()
            invariant
                i <= all@.len(),
                loc_pairs(all@) == src,
                pred == (|l: (nat, nat)| l.1 == 0),
                loc_pairs(camps@) == src.subrange(0, i as int).filter(pred),
            decreases all@.len() - i,
        {
            let ghost before = camps@;
            let ghost e = src[i as int];
            proof {
                assert(src.subrange(0, i + 1) =~= src.subrange(0, i as int).push(e));
                src.subrange(0, i as int).lemma_filter_push(e, pred);
                assert(pred(e) == (e.1 == 0));
            }
            assert(loc_pairs(all@)[i as int] == (all@[i as int].spec_column().index(), all@[i as int].spec_row().index()));
            if all[i].row().is_camp() {
                camps.push(all[i]);
                assert(loc_pairs(camps@) =~= loc_pairs(before).push(e));
                assert(loc_pairs(camps@) == src.subrange(0, i + 1).filter(pred));
            } else {
                assert(loc_pairs(camps@) == src.subrange(0, i + 1).filter(pred));
            }
            i += 1;
        }
        assert(src.subrange(0, i as int) =~= src);
        let target_locs = locs_on_board(&camps, other);
        let r = DamageChoice::future(player, false, target_locs);
        proof {
            self.spec_player(other).lemma_unprotected_card_locs();
            let f = src.filter(pred);
            assert forall|k: int| 0 <= k < f.len() implies self.spec_player(other).spec_has_card(
                #[trigger] f[k].0 as int,
                f[k].1 as int,
            ) by {
                src.lemma_filter_contains_rev(pred, f[k]);
                assert(f.contains(f[k]));
                let j = choose|j: int| 0 <= j < src.len() && src[j] == f[k];
                assert(self.spec_player(other).spec_has_card(src[j].0 as int, src[j].1 as int));
            }
            lemma_damage_future_valid(*self, r, player, false, other, f);
        }
        r
    }

    /// Returns the locations of all unprotected opponent people.
    fn unprotected_enemies_vec(&self, player: Player) -> (r: Vec<CardLocation>)
        ensures
            card_loc_pairs(r@) == self.spec_player(player.spec_other()).spec_unprotected_person_locs(),
            all_on(r@, player.spec_other()),
    {
        let other = player.other();
        locs_on_board(&self.player(other).unprotected_person_locs(), other)
    }

    /// Has this player injure an unprotected opponent person.
    pub fn injure_enemy(&self, player: Player) -> (r: ChoiceFuture)
        requires
            self.card_total() <= MAX_CARDS,
        ensures
            is_damage_future(r, player, false, player.spec_other(), self.spec_player(player.spec_other()).spec_unprotected_person_locs()),
            r.valid_for(*self),
    {
        let r = DamageChoice::future(player, false, self.unprotected_enemies_vec(player));
        proof {
            let other = player.spec_other();
            self.spec_player(other).lemma_unprotected_person_locs();
            lemma_damage_future_valid(*self, r, player, false, other, self.spec_player(other).spec_unprotected_person_locs());
        }
        r
    }

    /// Has this player destroy an unprotected opponent person.
    pub fn destroy_enemy(&self, player: Player) -> (r: ChoiceFuture)
        requires
            self.card_total() <= MAX_CARDS,
        ensures
            is_damage_future(r, player, true, player.spec_other(), self.spec_player(player.spec_other()).spec_unprotected_person_locs()),
            r.valid_for(*self),
    {
        let r = DamageChoice::future(player, true, self.unprotected_enemies_vec(player));
        proof {
            let other = player.spec_other();
            self.spec_player(other).lemma_unprotected_person_locs();
            lemma_damage_future_valid(*self, r, player, true, other, self.spec_player(other).spec_unprotected_person_locs());
        }
        r
    }

    /// Has this player destroy one of their own people.
    pub fn destroy_own_person(&self, player: Player) -> (r: ChoiceFuture)
        requires
            self.card_total() <= MAX_CARDS,
        ensures
            is_damage_future(r, player, true, player, person_card_locs(self.spec_player(player))),
            r.valid_for(*self),
    {
        let locs = self.player(player).person_locs();
        let ghost src = self.spec_player(player).spec_person_locs();
        let mut target_locs: Vec<CardLocation> = Vec::new();
        let mut i: usize = 0;
        while i < locs.len()
            invariant
                i <= locs@.len(),
                play_loc_pairs(locs@) == src,
                person_card_locs(self.spec_player(player)) == src.map_values(|l: (nat, nat)| (l.0, l.1 + 1)),
                card_loc_pairs(target_locs@) == person_card_locs(self.spec_player(player)).subrange(0, i as int),
                all_on(target_locs@, player),
            decreases locs@.len() - i,
        {
            let ghost before = target_locs@;
            assert(play_loc_pairs(locs@)[i as int] == (locs@[i as int].spec_column().index(), locs@[i as int].spec_row().index()));
            let ghost pc = person_card_locs(self.spec_player(player));
            assert(pc[i as int] == (src[i as int].0, src[i as int].1 + 1));
            target_locs.push(locs[i].for_player(player));
            assert(card_loc_pairs(target_locs@) =~= card_loc_pairs(before).push(person_card_locs(self.spec_player(player))[i as int]));
            assert(person_card_locs(self.spec_player(player)).subrange(0, i + 1) =~= person_card_locs(self.spec_player(player)).subrange(0, i as int).push(person_card_locs(self.spec_player(player))[i as int]));
            i += 1;
        }
        assert(person_card_locs(self.spec_player(player)).subrange(0, i as int) =~= person_card_locs(self.spec_player(player)));
        let r = DamageChoice::future(player, true, target_locs);
        proof {
            lemma_person_card_locs(self.spec_player(player));
            lemma_damage_future_valid(*self, r, player, true, player, person_card_locs(self.spec_player(player)));
        }
        r
    }

    /// Has this player destroy an opponent camp.
    pub fn destroy_enemy_camp(&self, player: Player) -> (r: ChoiceFuture)
        requires
            self.card_total() <= MAX_CARDS,
        ensures
            is_damage_future(r, player, true, player.spec_other(), intact_camp_locs(self.spec_player(player.spec_other()))),
            r.valid_for(*self),
    {
        let other = player.other();
        let target_locs = self.intact_camps_of(other);
        let r = DamageChoice::future(player, true, target_locs);
        proof {
            lemma_intact_camp_locs(self.spec_player(other));
            lemma_damage_future_valid(*self, r, player, true, other, intact_camp_locs(self.spec_player(other)));
        }
        r
    }

    /// Returns the locations of the player's camps that are not destroyed.
    pub fn intact_camps_of(&self, owner: Player) -> (r: Vec<CardLocation>)
        ensures
            card_loc_pairs(r@) == intact_camp_locs(self.spec_player(owner)),
            all_on(r@, owner),
    {
        let camps = self.player(owner).enumerate_camps();
        let mut v: Vec<PlayerCardLocation> = Vec::new();
        if !camps[0].1.is_destroyed() {
            v.push(camps[0].0);
        }
        if !camps[1].1.is_destroyed() {
            v.push(camps[1].0);
        }
        if !camps[2].1.is_destroyed() {
            v.push(camps[2].0);
        }
        assert(loc_pairs(v@) =~= intact_camp_locs(self.spec_player(owner)));
        locs_on_board(&v, owner)
    }

    /// Has this player restore one of their own damaged cards, or does nothing if the player
    /// does not have at least one restorable card.
    pub fn restore_card(&self, player: Player) -> (r: ChoiceFuture)
        requires
            self.card_total() <= MAX_CARDS,
        ensures
            is_restore_future(r, *self, player),
            r.valid_for(*self),
    {
        let target_locs = self.player(player).restorable_card_locs();
        if target_locs.len() == 0 {
            return ChoiceFuture::Immediate(None);
        }
        let r = ChoiceFuture::Pending(Choice::Restore(RestoreChoice { chooser: player, locations: target_locs, next_steps: Vec::new() }));
        proof {
            let ps = self.spec_player(player);
            ps.lemma_restorable_card_locs();
            let c = r->Pending_0->Restore_0;
            assert forall|i: int| 0 <= i < c.locations@.len() implies super::choices::restorable_at(ps, #[trigger] c.locations@[i]) by {
                assert(loc_pairs(c.locations@)[i] == ps.spec_restorable_card_locs()[i]);
            }
        }
        r
    }

    /// Given the "normal" resolve timer for an event, returns the actual resolve timer for the
    /// event if the player plays it now, taking into account other card effects.
    pub fn effective_resolve_turns(&self, player: Player, resolve_turns: u8) -> (r: u8)
        ensures
            r == self.spec_effective_resolve_turns(player, resolve_turns),
    {
        if !self.has_played_event && self.player(player).has_special_person(SpecialType::ZetoKhan) {
            0  // Zeto Khan's trait: the first event played this turn resolves in 0 turns
        } else {
            resolve_turns
        }
    }

    /// Returns whether this player can play an event that resolves in the given number of turns.
    pub fn can_play_event(&self, player: Player, resolve_turns: u8) -> (r: bool)
        requires
            resolve_turns <= 4,
        ensures
            r == self.spec_can_play_event(player, resolve_turns),
    {
        let t = self.effective_resolve_turns(player, resolve_turns);
        self.player(player).can_play_event(t)
    }

    /// Returns whether this player can use the raid effect to play or advance their Raiders
    /// event.
    pub fn can_raid(&self, player: Player) -> (r: bool)
        ensures
            r == self.spec_can_raid(player),
    {
        // search for the Raiders event in the event queue
        let events = self.player(player).events;
        if events[0] == Some(EventType::Raiders) {
            // it's the first event, so the raid effect would resolve it
            true
        } else if events[1] == Some(EventType::Raiders) {
            // the raid effect can only advance it if there is not an event directly in front
            events[0].is_none()
        } else if events[2] == Some(EventType::Raiders) {
            events[1].is_none()
        } else {
            // the raid effect can only be used if there is a free event slot for it
            self.can_play_event(player, EventType::Raiders.resolve_turns())
        }
    }
}

/// The location is the given row of the given column of the given player's board.
pub open spec fn loc_is(l: CardLocation, p: Player, c: int, r: int) -> bool {
    &&& l.spec_player() == p
    &&& l.spec_column().index() == c
    &&& l.spec_row().index() == r
}

/// Some listed location is the given row of the given column of the given player's board.
pub open spec fn is_hit(locs: Seq<CardLocation>, p: Player, c: int, r: int) -> bool {
    exists|i: int| 0 <= i < locs.len() && loc_is(#[trigger] locs[i], p, c, r)
}

/// No location is listed twice.
pub open spec fn locs_distinct(locs: Seq<CardLocation>) -> bool {
    forall|i: int, j: int|
        0 <= i < j < locs.len() ==> !loc_is(
            #[trigger] locs[i],
            locs[j].spec_player(),
            locs[j].spec_column().index() as int,
            #[trigger] locs[j].spec_row().index() as int,
        )
}

/// A column after each of its cards in the rows that `hits` picks is damaged (or destroyed),
/// without moving any person.
pub open spec fn column_hit(col: CardColumn, hits: spec_fn(int) -> bool, destroy: bool) -> CardColumn {
    CardColumn {
        camp: if hits(0) {
            Camp { status: damaged_camp_status(col.camp.status, destroy), ..col.camp }
        } else {
            col.camp
        },
        person_slots: [
            if hits(1) {
                damaged_person(col.person_slots[0]->Some_0, destroy)
            } else {
                col.person_slots[0]
            },
            if hits(2) {
                damaged_person(col.person_slots[1]->Some_0, destroy)
            } else {
                col.person_slots[1]
            },
        ],
    }
}

/// The cards that damaging the listed cards, one after the other, puts on the discard pile.
pub open spec fn discards_for(gs: GameState, locs: Seq<CardLocation>, destroy: bool) -> Seq<
    PersonOrEventType,
>
    decreases locs.len(),
{
    if locs.len() == 0 {
        Seq::empty()
    } else {
        let l = locs.last();
        let extra = if l.spec_row().index() == 0 {
            Seq::empty()
        } else {
            discarded_by_damage(
                gs.spec_player(l.spec_player()).columns[l.spec_column().index() as int].person_slots[l.spec_row().index()
                    - 1]->Some_0,
                destroy,
            )
        };
        discards_for(gs, locs.drop_last(), destroy) + extra
    }
}

/// Everything but the boards' columns and the discard pile is the same.
pub open spec fn same_but_columns(a: GameState, b: GameState) -> bool {
    &&& b.deck == a.deck
    &&& b.cur_player == a.cur_player
    &&& b.cur_player_water == a.cur_player_water
    &&& b.has_paid_to_draw == a.has_paid_to_draw
    &&& b.has_played_event == a.has_played_event
    &&& b.has_reshuffled_deck == a.has_reshuffled_deck
    &&& b.player1.hand == a.player1.hand
    &&& b.player1.has_water_silo == a.player1.has_water_silo
    &&& b.player1.events == a.player1.events
    &&& b.player2.hand == a.player2.hand
    &&& b.player2.has_water_silo == a.player2.has_water_silo
    &&& b.player2.events == a.player2.events
}

/// What damaging (or destroying) the cards at the locations at once does: the hit cards change
/// as [`column_hit`] says and people in front of destroyed people move back; the person cards
/// that leave the board go to the discard pile. Only a hit camp can end the game, with the
/// loss of a player whose camp was hit.
pub open spec fn damage_cards_outcome(
    old: GameState,
    new: GameState,
    locs: Seq<CardLocation>,
    destroy: bool,
    r: Result<(), GameResult>,
) -> bool {
    &&& r is Ok ==> {
        &&& same_but_columns(old, new)
        &&& forall|p: Player, c: int|
            0 <= c < 3 ==> #[trigger] new.spec_player(p).columns[c] == column_shifted(
                column_hit(old.spec_player(p).columns[c], |row: int| is_hit(locs, p, c, row), destroy),
            )
        &&& new.discard@ == old.discard@ + discards_for(old, locs, destroy)
    }
    &&& (forall|i: int| 0 <= i < locs.len() ==> (#[trigger] locs[i]).spec_row().index() != 0) ==> r is Ok
    &&& r matches Err(res) ==> exists|i: int|
        0 <= i < locs.len() && (#[trigger] locs[i]).spec_row().index() == 0 && res == loss_for(locs[i].spec_player())
            && damaged_upto(old, new, locs, i + 1, destroy)
}

/// The cards at the first `k` locations were hit one after another, and nobody moved back yet:
/// the state in which the game ended when a hit destroyed a player's last camp.
pub open spec fn damaged_upto(old: GameState, new: GameState, locs: Seq<CardLocation>, k: int, destroy: bool) -> bool {
    &&& same_but_columns(old, new)
    &&& forall|p: Player, c: int|
        0 <= c < 3 ==> #[trigger] new.spec_player(p).columns[c] == column_hit(
            old.spec_player(p).columns[c],
            |row: int| is_hit(locs.take(k), p, c, row),
            destroy,
        )
    &&& new.discard@ == old.discard@ + discards_for(old, locs.take(k), destroy)
}

/// Listing one more location hits what the shorter list hits, and that location.
pub proof fn lemma_hit_step(locs: Seq<CardLocation>, i: int, p: Player, c: int, r: int)
    requires
        0 <= i < locs.len(),
    ensures
        is_hit(locs.take(i + 1), p, c, r) == (is_hit(locs.take(i), p, c, r) || loc_is(locs[i], p, c, r)),
{
    if is_hit(locs.take(i + 1), p, c, r) {
        let k = choose|k: int| 0 <= k < locs.take(i + 1).len() && loc_is(#[trigger] locs.take(i + 1)[k], p, c, r);
        if k < i {
            assert(loc_is(locs.take(i)[k], p, c, r));
        }
    }
    if is_hit(locs.take(i), p, c, r) {
        let k = choose|k: int| 0 <= k < locs.take(i).len() && loc_is(#[trigger] locs.take(i)[k], p, c, r);
        assert(loc_is(locs.take(i + 1)[k], p, c, r));
    }
    if loc_is(locs[i], p, c, r) {
        assert(loc_is(locs.take(i + 1)[i], p, c, r));
    }
}

/// Moves the people of every column of the board back where the back slot is empty.
fn shift_people_back(ps: &mut PlayerState)
    ensures
        forall|c: int| 0 <= c < 3 ==> #[trigger] final(ps).columns[c] == column_shifted(old(ps).columns[c]),
        final(ps).hand == old(ps).hand,
        final(ps).has_water_silo == old(ps).has_water_silo,
        final(ps).events == old(ps).events,
        board_card_count(*final(ps)) == board_card_count(*old(ps)),
{
    let mut c: usize = 0;
    while c < 3
        invariant
            c <= 3,
            forall|k: int| 0 <= k < c ==> #[trigger] ps.columns[k] == column_shifted(old(ps).columns[k]),
            forall|k: int| c <= k < 3 ==> #[trigger] ps.columns[k] == old(ps).columns[k],
            ps.hand == old(ps).hand,
            ps.has_water_silo == old(ps).has_water_silo,
            ps.events == old(ps).events,
            board_card_count(*ps) == board_card_count(*old(ps)),
        decreases 3 - c,
    {
        if ps.columns[c].person_slots[0].is_none() {
            let front = ps.columns[c].person_slots[1];
            ps.columns[c].person_slots[0] = front;
            ps.columns[c].person_slots[1] = None;
            assert(ps.columns[c as int].person_slots =~= column_shifted(old(ps).columns[c as int]).person_slots);
        }
        c += 1;
    }
}

impl GameState {
    /// Damages or destroys zero or more cards at the given set of locations.
    /// If `destroy` is true, the cards are always destroyed; otherwise, they are damaged.
    ///
    /// All the cards are damaged before any person moves back, so that one card being
    /// destroyed does not move another; then every person in front of an empty back slot moves
    /// back. Destroying a player's last camp ends the game at once.
    #[verifier::rlimit(30)]
    pub fn damage_cards_at(&mut self, locations: Vec<CardLocation>, destroy: bool) -> (r: Result<(), GameResult>)
        requires
            old(self).wf(),
            forall|i: int| 0 <= i < locations@.len() ==> old(self).has_card_at(#[trigger] locations@[i]),
            locs_distinct(locations@),
        ensures
            final(self).wf(),
            final(self).card_total() == old(self).card_total(),
            damage_cards_outcome(*old(self), *final(self), locations@, destroy, r),
    {
        let ghost s0 = *self;
        let ghost locs = locations@;
        proof {
            assert forall|p: Player, c: int| 0 <= c < 3 implies #[trigger] self.spec_player(p).columns[c] == column_hit(
                s0.spec_player(p).columns[c],
                |r: int| is_hit(locs.take(0), p, c, r),
                destroy,
            ) by {
                let t = column_hit(s0.spec_player(p).columns[c], |r: int| is_hit(locs.take(0), p, c, r), destroy);
                assert(!is_hit(locs.take(0), p, c, 0));
                assert(!is_hit(locs.take(0), p, c, 1));
                assert(!is_hit(locs.take(0), p, c, 2));
                assert(t.person_slots =~= self.spec_player(p).columns[c].person_slots);
            }
            assert(s0.discard@ + discards_for(s0, locs.take(0), destroy) =~= s0.discard@);
        }
        // damage/destroy all the cards without shifting any cards
        let mut i: usize = 0;
        while i < locations.len()
            invariant
                i <= locs.len(),
                locs == locations@,
                s0 == *old(self),
                self.wf(),
                self.card_total() == s0.card_total(),
                s0.wf(),
                forall|j: int| 0 <= j < locs.len() ==> s0.has_card_at(#[trigger] locs[j]),
                locs_distinct(locs),
                same_but_columns(s0, *self),
                forall|p: Player, c: int|
                    0 <= c < 3 ==> #[trigger] self.spec_player(p).columns[c] == column_hit(
                        s0.spec_player(p).columns[c],
                        |r: int| is_hit(locs.take(i as int), p, c, r),
                        destroy,
                    ),
                self.discard@ == s0.discard@ + discards_for(s0, locs.take(i as int), destroy),
            decreases locs.len() - i,
        {
            let loc = locations[i];
            let ghost pl = loc.spec_player();
            let ghost c = loc.spec_column().index() as int;
            let ghost row = loc.spec_row().index() as int;
            let ghost before = *self;
            proof {
                assert(s0.has_card_at(locs[i as int]));
                assert(!is_hit(locs.take(i as int), pl, c, row)) by {
                    if is_hit(locs.take(i as int), pl, c, row) {
                        let k = choose|k: int| 0 <= k < locs.take(i as int).len() && loc_is(#[trigger] locs.take(i as int)[k], pl, c, row);
                        assert(locs.take(i as int)[k] == locs[k]);
                        assert(!loc_is(locs[k], locs[i as int].spec_player(), locs[i as int].spec_column().index() as int, locs[i as int].spec_row().index() as int));
                    }
                }
                assert(self.spec_player(pl).columns[c] == column_hit(
                    s0.spec_player(pl).columns[c],
                    |r: int| is_hit(locs.take(i as int), pl, c, r),
                    destroy,
                ));
            }
            match self.damage_card_at(loc, destroy, false) {
                Ok(()) => {},
                Err(res) => {
                    assert(row == 0);
                    assert(self.card_total() == s0.card_total());
                    assert(self.wf());
                    proof {
                        lemma_damage_step(s0, before, *self, locs, i as int, destroy);
                        assert(damaged_upto(s0, *self, locs, i + 1, destroy));
                    }
                    return Err(res);
                },
            }
            proof {
                lemma_damage_step(s0, before, *self, locs, i as int, destroy);
            }
            i += 1;
        }
        assert(locs.take(i as int) =~= locs);
        let ghost mid = *self;
        // shift any cards back as necessary
        shift_people_back(&mut self.player1);
        shift_people_back(&mut self.player2);
        proof {
            assert forall|p: Player, c: int| 0 <= c < 3 implies #[trigger] self.spec_player(p).columns[c] == column_shifted(
                column_hit(s0.spec_player(p).columns[c], |r: int| is_hit(locs, p, c, r), destroy),
            ) by {
                assert(mid.spec_player(p).columns[c] == column_hit(
                    s0.spec_player(p).columns[c],
                    |r: int| is_hit(locs.take(i as int), p, c, r),
                    destroy,
                ));
            }
        }
        Ok(())
    }
}

/// One more damaged card keeps the boards as damaging the cards listed so far.
proof fn lemma_damage_step(s0: GameState, before: GameState, after: GameState, locs: Seq<CardLocation>, i: int, destroy: bool)
    requires
        0 <= i < locs.len(),
        forall|p: Player, c: int|
            0 <= c < 3 ==> #[trigger] before.spec_player(p).columns[c] == column_hit(
                s0.spec_player(p).columns[c],
                |r: int| is_hit(locs.take(i), p, c, r),
                destroy,
            ),
        !is_hit(locs.take(i), locs[i].spec_player(), locs[i].spec_column().index() as int, locs[i].spec_row().index() as int),
        before.has_card_at(locs[i]),
        ({
            let pl = locs[i].spec_player();
            let c = locs[i].spec_column().index() as int;
            let row = locs[i].spec_row().index() as int;
            &&& super::same_but_board(before, after, pl)
            &&& forall|k: int| 0 <= k < 3 && k != c ==> #[trigger] after.spec_player(pl).columns[k] == before.spec_player(pl).columns[k]
            &&& after.spec_player(pl).columns[c] == super::column_after_damage(before.spec_player(pl).columns[c], row, destroy, false)
            &&& if row == 0 {
                after.discard == before.discard
            } else {
                after.discard@ == before.discard@ + discarded_by_damage(before.spec_player(pl).columns[c].person_slots[row - 1]->Some_0, destroy)
            }
        }),
        before.discard@ == s0.discard@ + discards_for(s0, locs.take(i), destroy),
    ensures
        forall|p: Player, k: int|
            0 <= k < 3 ==> #[trigger] after.spec_player(p).columns[k] == column_hit(
                s0.spec_player(p).columns[k],
                |r: int| is_hit(locs.take(i + 1), p, k, r),
                destroy,
            ),
        after.discard@ == s0.discard@ + discards_for(s0, locs.take(i + 1), destroy),
{
    let pl = locs[i].spec_player();
    let c = locs[i].spec_column().index() as int;
    let row = locs[i].spec_row().index() as int;
    assert forall|p: Player, k: int| 0 <= k < 3 implies #[trigger] after.spec_player(p).columns[k] == column_hit(
        s0.spec_player(p).columns[k],
        |r: int| is_hit(locs.take(i + 1), p, k, r),
        destroy,
    ) by {
        lemma_hit_step(locs, i, p, k, 0);
        lemma_hit_step(locs, i, p, k, 1);
        lemma_hit_step(locs, i, p, k, 2);
        let t = column_hit(s0.spec_player(p).columns[k], |r: int| is_hit(locs.take(i + 1), p, k, r), destroy);
        if p == pl && k == c {
            assert(after.spec_player(p).columns[k].person_slots =~= t.person_slots);
        } else {
            if p != pl {
                assert(p == pl.spec_other());
            }
            assert(before.spec_player(p).columns[k] == after.spec_player(p).columns[k]);
            assert(after.spec_player(p).columns[k].person_slots =~= t.person_slots);
        }
    }
    assert(locs.take(i + 1).drop_last() =~= locs.take(i));
    assert(locs.take(i + 1).last() == locs[i]);
    let col0 = s0.spec_player(pl).columns[c];
    assert(before.spec_player(pl).columns[c] == column_hit(col0, |r: int| is_hit(locs.take(i), pl, c, r), destroy));
    if row > 0 {
        assert(before.spec_player(pl).columns[c].person_slots[row - 1] == col0.person_slots[row - 1]);
    }
    assert(after.discard@ =~= s0.discard@ + discards_for(s0, locs.take(i + 1), destroy));
}

/// The cards that damaging the listed cards of the owner's board, one after the other, puts on
/// the discard pile.
pub open spec fn discards_for_pairs(gs: GameState, owner: Player, pairs: Seq<(nat, nat)>, destroy: bool) -> Seq<
    PersonOrEventType,
>
    decreases pairs.len(),
{
    if pairs.len() == 0 {
        Seq::empty()
    } else {
        let l = pairs.last();
        let extra = if l.1 == 0 {
            Seq::empty()
        } else {
            discarded_by_damage(gs.spec_player(owner).columns[l.0 as int].person_slots[l.1 - 1]->Some_0, destroy)
        };
        discards_for_pairs(gs, owner, pairs.drop_last(), destroy) + extra
    }
}

/// Locations on one board are hit exactly where their `(column, row)` pairs are, and are
/// distinct when the pairs are; what damaging them discards follows the pairs.
pub proof fn lemma_locs_on_one_board(gs: GameState, locs: Seq<CardLocation>, owner: Player, destroy: bool)
    requires
        all_on(locs, owner),
    ensures
        forall|c: int, r: int|
            0 <= c && 0 <= r ==> #[trigger] is_hit(locs, owner, c, r) == card_loc_pairs(locs).contains((c as nat, r as nat)),
        forall|c: int, r: int| !#[trigger] is_hit(locs, owner.spec_other(), c, r),
        card_loc_pairs(locs).no_duplicates() ==> locs_distinct(locs),
        discards_for(gs, locs, destroy) == discards_for_pairs(gs, owner, card_loc_pairs(locs), destroy),
    decreases locs.len(),
{
    let pairs = card_loc_pairs(locs);
    assert forall|c: int, r: int| 0 <= c && 0 <= r implies #[trigger] is_hit(locs, owner, c, r) == pairs.contains((c as nat, r as nat)) by {
        if is_hit(locs, owner, c, r) {
            let k = choose|k: int| 0 <= k < locs.len() && loc_is(#[trigger] locs[k], owner, c, r);
            assert(pairs[k] == (c as nat, r as nat));
        }
        if pairs.contains((c as nat, r as nat)) {
            let k = choose|k: int| 0 <= k < pairs.len() && pairs[k] == (c as nat, r as nat);
            assert(loc_is(locs[k], owner, c, r));
        }
    }
    assert forall|c: int, r: int| !#[trigger] is_hit(locs, owner.spec_other(), c, r) by {
        if is_hit(locs, owner.spec_other(), c, r) {
            let k = choose|k: int| 0 <= k < locs.len() && loc_is(#[trigger] locs[k], owner.spec_other(), c, r);
            assert(locs[k].spec_player() == owner);
        }
    }
    if pairs.no_duplicates() {
        assert forall|i: int, j: int| 0 <= i < j < locs.len() implies !loc_is(
            #[trigger] locs[i],
            locs[j].spec_player(),
            locs[j].spec_column().index() as int,
            #[trigger] locs[j].spec_row().index() as int,
        ) by {
            assert(pairs[i] != pairs[j]);
        }
    }
    if locs.len() > 0 {
        lemma_locs_on_one_board(gs, locs.drop_last(), owner, destroy);
        assert(card_loc_pairs(locs.drop_last()) =~= pairs.drop_last());
    }
}

impl GameState {
    /// Injures all unprotected opponent people.
    pub fn injure_all_unprotected_enemies(&mut self, player: Player)
        requires
            old(self).wf(),
        ensures
            injured_all(*old(self), *final(self), player),
    {
        let locs = self.unprotected_enemies_vec(player);
        let ghost l = locs@;
        let ghost s0 = *self;
        let ghost other = player.spec_other();
        proof {
            s0.spec_player(other).lemma_unprotected_person_locs();
            lemma_locs_on_one_board(s0, l, other, false);
            assert forall|i: int| 0 <= i < l.len() implies s0.has_card_at(#[trigger] l[i]) by {
                assert(card_loc_pairs(l)[i] == s0.spec_player(other).spec_unprotected_person_locs()[i]);
            }
        }
        let r = self.damage_cards_at(locs, false);
        proof {
            assert forall|i: int| 0 <= i < l.len() implies (#[trigger] l[i]).spec_row().index() != 0 by {
                assert(card_loc_pairs(l)[i] == s0.spec_player(other).spec_unprotected_person_locs()[i]);
            }
            assert forall|c: int| 0 <= c < 3 implies #[trigger] self.spec_player(player).columns[c]
                == column_shifted(s0.spec_player(player).columns[c]) by {
                let t = column_hit(s0.spec_player(player).columns[c], |r: int| is_hit(l, player, c, r), false);
                assert(!is_hit(l, other.spec_other(), c, 0));
                assert(!is_hit(l, other.spec_other(), c, 1));
                assert(!is_hit(l, other.spec_other(), c, 2));
                assert(t.person_slots =~= s0.spec_player(player).columns[c].person_slots);
            }
            assert forall|c: int| 0 <= c < 3 implies #[trigger] self.spec_player(other).columns[c]
                == column_shifted(column_hit(s0.spec_player(other).columns[c], |r: int| s0.spec_player(other).spec_unprotected_person_locs().contains((c as nat, r as nat)), false)) by {
                assert(is_hit(l, other, c, 0) == card_loc_pairs(l).contains((c as nat, 0nat)));
                assert(is_hit(l, other, c, 1) == card_loc_pairs(l).contains((c as nat, 1nat)));
                assert(is_hit(l, other, c, 2) == card_loc_pairs(l).contains((c as nat, 2nat)));
            }
        }
    }

    /// Destroys all injured opponent people.
    pub fn destroy_all_injured_enemies(&mut self, player: Player)
        requires
            old(self).wf(),
        ensures
            ({
                let other = player.spec_other();
                let targets = old(self).spec_player(other).spec_injured_person_locs();
                &&& final(self).wf()
                &&& final(self).card_total() == old(self).card_total()
                &&& same_but_columns(*old(self), *final(self))
                &&& forall|c: int| 0 <= c < 3 ==> #[trigger] final(self).spec_player(player).columns[c]
                    == column_shifted(old(self).spec_player(player).columns[c])
                &&& forall|c: int| 0 <= c < 3 ==> #[trigger] final(self).spec_player(other).columns[c]
                    == column_shifted(column_hit(old(self).spec_player(other).columns[c], |r: int| targets.contains((c as nat, r as nat)), true))
                &&& final(self).discard@ == old(self).discard@ + discards_for_pairs(*old(self), other, targets, true)
            }),
    {
        let other = player.other();
        let injured = self.injured_people_of(other);
        let locs = locs_on_board(&injured, other);
        let ghost l = locs@;
        let ghost s0 = *self;
        proof {
            s0.spec_player(other).lemma_injured_person_locs();
            lemma_locs_on_one_board(s0, l, other, true);
            assert forall|i: int| 0 <= i < l.len() implies s0.has_card_at(#[trigger] l[i]) by {
                assert(card_loc_pairs(l)[i] == s0.spec_player(other).spec_injured_person_locs()[i]);
            }
        }
        let r = self.damage_cards_at(locs, true);
        proof {
            assert forall|i: int| 0 <= i < l.len() implies (#[trigger] l[i]).spec_row().index() != 0 by {
                assert(card_loc_pairs(l)[i] == s0.spec_player(other).spec_injured_person_locs()[i]);
            }
            assert forall|c: int| 0 <= c < 3 implies #[trigger] self.spec_player(player).columns[c]
                == column_shifted(s0.spec_player(player).columns[c]) by {
                let t = column_hit(s0.spec_player(player).columns[c], |r: int| is_hit(l, player, c, r), true);
                assert(!is_hit(l, other.spec_other(), c, 0));
                assert(!is_hit(l, other.spec_other(), c, 1));
                assert(!is_hit(l, other.spec_other(), c, 2));
                assert(t.person_slots =~= s0.spec_player(player).columns[c].person_slots);
            }
            assert forall|c: int| 0 <= c < 3 implies #[trigger] self.spec_player(other).columns[c]
                == column_shifted(column_hit(s0.spec_player(other).columns[c], |r: int| s0.spec_player(other).spec_injured_person_locs().contains((c as nat, r as nat)), true)) by {
                assert(is_hit(l, other, c, 0) == card_loc_pairs(l).contains((c as nat, 0nat)));
                assert(is_hit(l, other, c, 1) == card_loc_pairs(l).contains((c as nat, 1nat)));
                assert(is_hit(l, other, c, 2) == card_loc_pairs(l).contains((c as nat, 2nat)));
            }
        }
    }

    /// Returns the locations of the injured people on the player's board.
    pub fn injured_people_of(&self, owner: Player) -> (r: Vec<PlayerCardLocation>)
        ensures
            loc_pairs(r@) == self.spec_player(owner).spec_injured_person_locs(),
    {
        let ps = self.player(owner);
        let mut r: Vec<PlayerCardLocation> = Vec::new();
        let mut c: usize = 0;
        while c < 3
            invariant
                c <= 3,
                *ps == self.spec_player(owner),
                loc_pairs(r@) == injured_upto(*ps, c as nat),
            decreases 3 - c,
        {
            let ghost before = r@;
            let ci = ColumnIndex::new(c);
            if let Some(p) = ps.columns[c].person_slots[0] {
                if p.is_injured() {
                    r.push(PlayerCardLocation::new(ci, CardRowIndex::new(1)));
                }
            }
            if let Some(p) = ps.columns[c].person_slots[1] {
                if p.is_injured() {
                    r.push(PlayerCardLocation::new(ci, CardRowIndex::new(2)));
                }
            }
            assert(loc_pairs(r@) =~= loc_pairs(before) + in_column(c as nat, ps.columns[c as int].spec_injured_rows()));
            c += 1;
        }
        proof {
            reveal_with_fuel(injured_upto, 4);
        }
        assert(injured_upto(*ps, 3) =~= ps.spec_injured_person_locs());
        r
    }
}

/// The injured people of the first `k` columns.
pub open spec fn injured_upto(ps: PlayerState, k: nat) -> Seq<(nat, nat)>
    decreases k,
{
    if k == 0 {
        Seq::empty()
    } else {
        injured_upto(ps, (k - 1) as nat) + in_column((k - 1) as nat, ps.columns[k - 1].spec_injured_rows())
    }
}

/// The rows where a person can be played into a column: the back row of an empty column, either
/// row of a column with one person, none of a full column or of one whose camp does not match
/// the restriction on destroyed camps.
pub open spec fn play_rows(col: CardColumn, camp_destroyed: Option<bool>) -> Seq<nat> {
    if camp_destroyed matches Some(d) && (col.camp.status == CampStatus::Destroyed) != d {
        Seq::empty()
    } else if col.person_slots[0] is None && col.person_slots[1] is None {
        seq![0nat]
    } else if col.person_slots[0] is None || col.person_slots[1] is None {
        seq![0nat, 1nat]
    } else {
        Seq::empty()
    }
}

/// The locations where a person can be played onto a board.
pub open spec fn play_locs(ps: PlayerState, camp_destroyed: Option<bool>) -> Seq<(nat, nat)> {
    in_column(0, play_rows(ps.columns[0], camp_destroyed)) + in_column(
        1,
        play_rows(ps.columns[1], camp_destroyed),
    ) + in_column(2, play_rows(ps.columns[2], camp_destroyed))
}

/// The places where a person can be played, exactly: a column that matches the restriction on
/// destroyed camps and has an empty person slot takes a person in its back row, and, when it
/// already holds a person, also in its front row (the person there is moved to make room); a
/// full column, or one that does not match, takes none.
pub proof fn lemma_play_locs_exact(ps: PlayerState, camp_destroyed: Option<bool>)
    ensures
        forall|c: int, r: int|
            0 <= c < 3 && 0 <= r < 2 ==> (#[trigger] play_locs(ps, camp_destroyed).contains((c as nat, r as nat)) <==> {
                let col = ps.columns[c];
                let has_room = col.person_slots[0] is None || col.person_slots[1] is None;
                let has_person = col.person_slots[0] is Some || col.person_slots[1] is Some;
                &&& camp_destroyed matches Some(d) ==> (col.camp.status == CampStatus::Destroyed) == d
                &&& has_room
                &&& r == 1 ==> has_person
            }),
{
    assert forall|c: int, r: int|
        0 <= c < 3 && 0 <= r < 2 implies (#[trigger] play_locs(ps, camp_destroyed).contains((c as nat, r as nat)) <==> {
            let col = ps.columns[c];
            let has_room = col.person_slots[0] is None || col.person_slots[1] is None;
            let has_person = col.person_slots[0] is Some || col.person_slots[1] is Some;
            &&& camp_destroyed matches Some(d) ==> (col.camp.status == CampStatus::Destroyed) == d
            &&& has_room
            &&& r == 1 ==> has_person
        }) by {
        super::player_state::lemma_in_columns_contains(
            play_rows(ps.columns[0], camp_destroyed),
            play_rows(ps.columns[1], camp_destroyed),
            play_rows(ps.columns[2], camp_destroyed),
            c as nat,
            r as nat,
        );
        let rows = play_rows(ps.columns[c], camp_destroyed);
        if rows.contains(r as nat) {
            let k = choose|k: int| 0 <= k < rows.len() && rows[k] == r as nat;
        }
        if rows.len() == 1 {
            assert(rows[0] == 0);
        }
        if rows.len() == 2 {
            assert(rows[r] == r);
        }
    }
}

/// Some person slot is empty in a column that matches the restriction on destroyed camps.
pub open spec fn has_empty_slot_matching(ps: PlayerState, camp_destroyed: Option<bool>) -> bool {
    match camp_destroyed {
        None => ps.spec_has_empty_person_slot(),
        Some(d) => ps.spec_has_empty_holdout_slot(d),
    }
}

/// Every play location is a place where a person can be played, and there is one exactly when
/// some matching slot is empty.
pub proof fn lemma_play_locs(ps: PlayerState, camp_destroyed: Option<bool>)
    ensures
        forall|i: int|
            0 <= i < play_locs(ps, camp_destroyed).len() ==> {
                let l = #[trigger] play_locs(ps, camp_destroyed)[i];
                let col = ps.columns[l.0 as int];
                &&& l.0 < 3
                &&& l.1 < 2
                &&& (col.person_slots[l.1 as int] is None || col.person_slots[1 - l.1] is None)
            },
        play_locs(ps, camp_destroyed).len() > 0 <==> has_empty_slot_matching(ps, camp_destroyed),
{
    lemma_in_columns(
        play_rows(ps.columns[0], camp_destroyed),
        play_rows(ps.columns[1], camp_destroyed),
        play_rows(ps.columns[2], camp_destroyed),
        |c: nat, r: nat| c < 3 && r < 2 && (ps.columns[c as int].person_slots[r as int] is None
            || ps.columns[c as int].person_slots[1 - r] is None),
    );
    if has_empty_slot_matching(ps, camp_destroyed) {
        let (c, r) = match camp_destroyed {
            None => choose|c: int, r: int| 0 <= c < 3 && 0 <= r < 2 && #[trigger] ps.columns[c].person_slots[r] is None,
            Some(d) => choose|c: int, r: int|
                0 <= c < 3 && 0 <= r < 2 && (ps.columns[c].camp.status == CampStatus::Destroyed) == d
                    && #[trigger] ps.columns[c].person_slots[r] is None,
        };
        assert(play_rows(ps.columns[c], camp_destroyed).len() > 0);
    }
    if play_locs(ps, camp_destroyed).len() > 0 {
        if play_rows(ps.columns[0], camp_destroyed).len() > 0 {
            assert(ps.columns[0].person_slots[0] is None || ps.columns[0].person_slots[1] is None);
        } else if play_rows(ps.columns[1], camp_destroyed).len() > 0 {
            assert(ps.columns[1].person_slots[0] is None || ps.columns[1].person_slots[1] is None);
        } else {
            assert(ps.columns[2].person_slots[0] is None || ps.columns[2].person_slots[1] is None);
        }
    }
}

impl GameState {
    /// Asks this player to choose a location, then plays the given person onto that location.
    /// If `camp_destroyed` is `Some`, then the possible play locations are restricted to
    /// columns whose camp's destruction matches it. With no possible location it resolves at
    /// once.
    pub fn play_person(&self, player: Player, person: Person, camp_destroyed: Option<bool>) -> (r: ChoiceFuture)
        requires
            self.card_total() + (if person is NonPunk { 1nat } else { 0 }) <= MAX_CARDS,
        ensures
            play_locs(self.spec_player(player), camp_destroyed).len() == 0 ==> r == ChoiceFuture::Immediate(None),
            play_locs(self.spec_player(player), camp_destroyed).len() > 0 ==> {
                &&& r is Pending
                &&& r->Pending_0 is PlayLoc
                &&& r->Pending_0->PlayLoc_0.chooser == player
                &&& r->Pending_0->PlayLoc_0.person == person
                &&& play_loc_pairs(r->Pending_0->PlayLoc_0.locations@) == play_locs(self.spec_player(player), camp_destroyed)
            },
            r.valid_for(*self),
            r.held_cards() <= (if person is NonPunk { 1nat } else { 0 }),
    {
        let ps = self.player(player);
        let mut play_locs_v: Vec<PlayLocation> = Vec::new();
        let mut c: usize = 0;
        while c < 3
            invariant
                c <= 3,
                *ps == self.spec_player(player),
                play_loc_pairs(play_locs_v@) == play_locs_upto(*ps, camp_destroyed, c as nat),
            decreases 3 - c,
        {
            let ghost before = play_locs_v@;
            let col = ps.columns[c];
            let matches = match camp_destroyed {
                Some(destroyed) => col.camp.is_destroyed() == destroyed,
                None => true,
            };
            if matches {
                let ci = ColumnIndex::new(c);
                if col.person_slots[0].is_none() && col.person_slots[1].is_none() {
                    // no people in this column, so only one possible play location
                    play_locs_v.push(PlayLocation::new(ci, PersonRowIndex::new(0)));
                } else if col.person_slots[0].is_none() || col.person_slots[1].is_none() {
                    // one person in this column, so two possible play locations
                    play_locs_v.push(PlayLocation::new(ci, PersonRowIndex::new(0)));
                    play_locs_v.push(PlayLocation::new(ci, PersonRowIndex::new(1)));
                }
            }
            assert(play_loc_pairs(play_locs_v@) =~= play_loc_pairs(before) + in_column(c as nat, play_rows(ps.columns[c as int], camp_destroyed)));
            c += 1;
        }
        proof {
            reveal_with_fuel(play_locs_upto, 4);
        }
        assert(play_locs_upto(*ps, camp_destroyed, 3) =~= play_locs(*ps, camp_destroyed));
        if play_locs_v.len() == 0 {
            return ChoiceFuture::Immediate(None);
        }
        let r = ChoiceFuture::Pending(Choice::PlayLoc(PlayChoice { chooser: player, person, locations: play_locs_v, next_steps: Vec::new() }));
        proof {
            lemma_play_locs(*ps, camp_destroyed);
            let ch = r->Pending_0->PlayLoc_0;
            assert forall|i: int| 0 <= i < ch.locations@.len() implies can_place_at(*ps, #[trigger] ch.locations@[i]) by {
                assert(play_loc_pairs(ch.locations@)[i] == play_locs(*ps, camp_destroyed)[i]);
            }
        }
        r
    }

    /// Has this player add a punk to their board; does nothing if the player's board is full.
    /// The punk is ready when Karli Blaze's trait is active.
    pub fn gain_punk(&self, player: Player) -> (r: ChoiceFuture)
        requires
            self.card_total() <= MAX_CARDS,
        ensures
            is_punk_future(r, *self, player),
            r.valid_for(*self),
            r.held_cards() == 0,
    {
        if self.player(player).has_empty_person_slot() {
            let force_ready = self.player(player).has_special_person(SpecialType::KarliBlaze);
            let punk = Person::new_punk(force_ready);
            proof {
                lemma_play_locs(self.spec_player(player), None);
            }
            self.play_person(player, punk, None)
        } else {
            ChoiceFuture::Immediate(None)
        }
    }
}

/// The play locations of the first `k` columns.
pub open spec fn play_locs_upto(ps: PlayerState, camp_destroyed: Option<bool>, k: nat) -> Seq<(nat, nat)>
    decreases k,
{
    if k == 0 {
        Seq::empty()
    } else {
        play_locs_upto(ps, camp_destroyed, (k - 1) as nat) + in_column((k - 1) as nat, play_rows(ps.columns[k - 1], camp_destroyed))
    }
}

/// What injuring all the unprotected enemies of the player does: each frontmost person of the
/// opponent's columns is damaged, then people move back into empty back slots.
pub open spec fn injured_all(before: GameState, after: GameState, player: Player) -> bool {
    let other = player.spec_other();
    let targets = before.spec_player(other).spec_unprotected_person_locs();
    &&& after.wf()
    &&& after.card_total() == before.card_total()
    &&& same_but_columns(before, after)
    &&& forall|c: int| 0 <= c < 3 ==> #[trigger] after.spec_player(player).columns[c]
        == column_shifted(before.spec_player(player).columns[c])
    &&& forall|c: int| 0 <= c < 3 ==> #[trigger] after.spec_player(other).columns[c]
        == column_shifted(column_hit(before.spec_player(other).columns[c], |r: int| targets.contains((c as nat, r as nat)), false))
    &&& after.discard@ == before.discard@ + discards_for_pairs(before, other, targets, false)
}

/// What resolving an event for its owner does: Strafe injures all unprotected enemies; Raiders
/// has the opponent damage one of their own camps.
pub open spec fn event_resolution(before: GameState, after: GameState, owner: Player, event: EventType, r: ChoiceFuture) -> bool {
    match event {
        EventType::Strafe => r == ChoiceFuture::Immediate(None) && injured_all(before, after, owner),
        EventType::Raiders => {
            &&& after == before
            &&& is_damage_future(r, owner.spec_other(), false, owner.spec_other(), intact_camp_locs(before.spec_player(owner.spec_other())))
        },
    }
}

/// The first free event slot at or after the given one (3 if there is none).
pub open spec fn first_free_from(events: Seq<Option<EventType>>, from: int) -> int
    decreases 3 - from,
{
    if from >= 3 {
        3
    } else if events[from] is None {
        from
    } else {
        first_free_from(events, from + 1)
    }
}

/// The game state with the player's event queue replaced.
pub open spec fn with_events(gs: GameState, p: Player, events: [Option<EventType>; 3]) -> GameState {
    gs.with_player(p, PlayerState { events, ..gs.spec_player(p) })
}

/// What playing an event does: the event resolves at once if it would resolve in 0 turns;
/// otherwise it goes into the first free slot at or after its initial one.
pub open spec fn play_event_outcome(old: GameState, new: GameState, player: Player, event: EventType, r: ChoiceFuture) -> bool {
    let t = old.spec_effective_resolve_turns(player, event.spec_resolve_turns());
    let mid = GameState { has_played_event: true, ..old };
    if t == 0 {
        event_resolution(mid, new, player, event, r)
    } else {
        let k = first_free_from(old.spec_player(player).events@, t - 1);
        &&& r == ChoiceFuture::Immediate(None)
        &&& k < 3
        &&& new.spec_player(player).events@ == old.spec_player(player).events@.update(k, Some(event))
        &&& new == with_events(mid, player, new.spec_player(player).events)
    }
}

/// Strafe is the only event that is a card; its card is counted where it lies in the queue.
pub open spec fn event_cards(e: EventType) -> nat {
    if e == EventType::Strafe {
        1
    } else {
        0
    }
}

impl EventType {
    /// Resolves the event for its owner.
    pub fn resolve(self, gs: &mut GameState, owner: Player) -> (r: ChoiceFuture)
        requires
            old(gs).wf(),
        ensures
            final(gs).wf(),
            event_resolution(*old(gs), *final(gs), owner, self, r),
            r.valid_for(*final(gs)),
            r.held_cards() == 0,
    {
        match self {
            EventType::Strafe => {
                gs.injure_all_unprotected_enemies(owner);
                ChoiceFuture::Immediate(None)
            },
            EventType::Raiders => {
                // have the other player choose one of their (non-destroyed) camps to damage
                let other = owner.other();
                let target_locs = gs.intact_camps_of(other);
                let r = DamageChoice::future(other, false, target_locs);
                proof {
                    lemma_intact_camp_locs(gs.spec_player(other));
                    lemma_damage_future_valid(*gs, r, other, false, other, intact_camp_locs(gs.spec_player(other)));
                }
                r
            },
        }
    }
}

impl GameState {
    /// Plays an event into this player's event queue (or resolves it immediately if it's a
    /// 0-turn event).
    pub fn play_event(&mut self, player: Player, event: EventType) -> (r: ChoiceFuture)
        requires
            old(self).wf(),
            old(self).spec_can_play_event(player, event.spec_resolve_turns()),
            old(self).card_total() + event_cards(event) <= MAX_CARDS,
        ensures
            play_event_outcome(*old(self), *final(self), player, event, r),
            final(self).wf(),
            r.valid_for(*final(self)),
            r.held_cards() == 0,
            final(self).card_total() == old(self).card_total() + if old(self).spec_effective_resolve_turns(
                player,
                event.spec_resolve_turns(),
            ) == 0 {
                0
            } else {
                event_cards(event)
            },
    {
        let resolve_turns = self.effective_resolve_turns(player, event.resolve_turns());
        self.has_played_event = true;
        if resolve_turns == 0 {
            event.resolve(self, player)
        } else {
            let ghost s1 = *self;
            let ghost ev = s1.spec_player(player).events@;
            let slot_index = (resolve_turns - 1) as usize;
            let mut k = slot_index;
            while k < 3 && self.player(player).events[k].is_some()
                invariant
                    slot_index <= k <= 3,
                    slot_index == resolve_turns - 1,
                    *self == s1,
                    ev == self.spec_player(player).events@,
                    first_free_from(ev, slot_index as int) == first_free_from(ev, k as int),
                decreases 3 - k,
            {
                k += 1;
            }
            proof {
                let j = choose|j: int| resolve_turns - 1 <= j < 3 && #[trigger] ev[j] is None;
                lemma_first_free_found(ev, slot_index as int, j);
                if k >= 3 {
                    assert(first_free_from(ev, k as int) == 3);
                }
                assert(k < 3);
                assert(ev[k as int] is None);
                assert(first_free_from(ev, k as int) == k);
            }
            let ps = self.player_mut(player);
            ps.events[k] = Some(event);
            proof {
                assert(self.spec_player(player).events@ =~= ev.update(k as int, Some(event)));
                assert(board_card_count(self.spec_player(player)) == board_card_count(s1.spec_player(player)) + event_cards(event));
                assert(*self == with_events(s1, player, self.spec_player(player).events));
            }
            ChoiceFuture::Immediate(None)
        }
    }
}

/// A free slot at or after `from` is found by `first_free_from`.
pub proof fn lemma_first_free_found(events: Seq<Option<EventType>>, from: int, j: int)
    requires
        0 <= from <= j < 3,
        events[j] is None,
    ensures
        first_free_from(events, from) <= j,
        events[first_free_from(events, from)] is None,
    decreases 3 - from,
{
    if events[from] is Some {
        lemma_first_free_found(events, from + 1, j);
    }
}

/// What the raid effect does: a Raiders event in the first slot is resolved; one further back
/// moves forward when the slot in front of it is free; without a Raiders event in the queue,
/// Raiders is played.
pub open spec fn raid_outcome(old: GameState, new: GameState, player: Player, r: ChoiceFuture) -> bool {
    let ev = old.spec_player(player).events;
    let raiders = Some(EventType::Raiders);
    if ev[0] == raiders {
        event_resolution(with_events(old, player, [None, ev[1], ev[2]]), new, player, EventType::Raiders, r)
    } else if ev[1] == raiders {
        &&& r == ChoiceFuture::Immediate(None)
        &&& new == if ev[0] is None {
            with_events(old, player, [ev[1], None, ev[2]])
        } else {
            old
        }
    } else if ev[2] == raiders {
        &&& r == ChoiceFuture::Immediate(None)
        &&& new == if ev[1] is None {
            with_events(old, player, [ev[0], ev[2], None])
        } else {
            old
        }
    } else {
        play_event_outcome(old, new, player, EventType::Raiders, r)
    }
}

impl GameState {
    /// Plays or advances a player's Raiders event.
    pub fn raid(&mut self, player: Player) -> (r: ChoiceFuture)
        requires
            old(self).wf(),
            old(self).spec_can_raid(player),
        ensures
            raid_outcome(*old(self), *final(self), player, r),
            final(self).wf(),
            final(self).card_total() == old(self).card_total(),
            r.valid_for(*final(self)),
            r.held_cards() == 0,
    {
        let ghost s0 = *self;
        let events = self.player(player).events;
        if events[0] == Some(EventType::Raiders) {
            // it's the first event, so remove and resolve it
            self.player_mut(player).events[0] = None;
            assert(self.spec_player(player).events =~= [None, events[1], events[2]]);
            assert(*self == with_events(s0, player, [None, events[1], events[2]]));
            return EventType::Raiders.resolve(self, player);
        }
        if events[1] == Some(EventType::Raiders) {
            // it's not the first event, so advance it if possible
            if events[0].is_none() {
                let ps = self.player_mut(player);
                ps.events[0] = events[1];
                ps.events[1] = None;
                assert(self.spec_player(player).events =~= [events[1], None, events[2]]);
                assert(*self == with_events(s0, player, [events[1], None, events[2]]));
            }
            return ChoiceFuture::Immediate(None);
        }
        if events[2] == Some(EventType::Raiders) {
            if events[1].is_none() {
                let ps = self.player_mut(player);
                ps.events[1] = events[2];
                ps.events[2] = None;
                assert(self.spec_player(player).events =~= [events[0], events[2], None]);
                assert(*self == with_events(s0, player, [events[0], events[2], None]));
            }
            return ChoiceFuture::Immediate(None);
        }
        // the raiders event was not found in the event queue; add it to the queue
        self.play_event(player, EventType::Raiders)
    }
}

/// The future asks the player to restore one of their damaged cards, or resolves at once when
/// none is damaged.
pub open spec fn is_restore_future(r: ChoiceFuture, gs: GameState, player: Player) -> bool {
    let targets = gs.spec_player(player).spec_restorable_card_locs();
    &&& targets.len() == 0 ==> r == ChoiceFuture::Immediate(None)
    &&& targets.len() > 0 ==> {
        &&& r is Pending
        &&& r->Pending_0 is Restore
        &&& r->Pending_0->Restore_0.chooser == player
        &&& loc_pairs(r->Pending_0->Restore_0.locations@) == targets
    }
}

/// The future asks the player where to play a new punk (ready when Karli Blaze's trait is
/// active), or resolves at once when the board is full.
pub open spec fn is_punk_future(r: ChoiceFuture, gs: GameState, player: Player) -> bool {
    let ps = gs.spec_player(player);
    &&& !ps.spec_has_empty_person_slot() ==> r == ChoiceFuture::Immediate(None)
    &&& ps.spec_has_empty_person_slot() ==> {
        &&& r is Pending
        &&& r->Pending_0 is PlayLoc
        &&& r->Pending_0->PlayLoc_0.chooser == player
        &&& r->Pending_0->PlayLoc_0.person == (Person::Punk {
            is_ready: ps.spec_has_special_person(SpecialType::KarliBlaze),
            times_used: 0,
        })
        &&& play_loc_pairs(r->Pending_0->PlayLoc_0.locations@) == play_locs(ps, None)
    }
}

/// What performing an icon effect for the player does.
pub open spec fn effect_outcome(
    old: GameState,
    new: GameState,
    player: Player,
    effect: IconEffect,
    r: Result<ChoiceFuture, GameResult>,
) -> bool {
    let other = player.spec_other();
    match effect {
        IconEffect::Damage => new == old && (r matches Ok(f) && is_damage_future(
            f,
            player,
            false,
            other,
            old.spec_player(other).spec_unprotected_card_locs(),
        )),
        IconEffect::Injure => new == old && (r matches Ok(f) && is_damage_future(
            f,
            player,
            false,
            other,
            old.spec_player(other).spec_unprotected_person_locs(),
        )),
        IconEffect::Restore => new == old && (r matches Ok(f) && is_restore_future(f, old, player)),
        IconEffect::Draw => {
            &&& new.same_but_piles(old, player)
            &&& match r {
                Ok(f) => f == ChoiceFuture::Immediate(None) && exists|c: PersonOrEventType|
                    draw_outcome(old, new, Ok(c)) && #[trigger] new.hand_grew(old, player, c),
                Err(e) => draw_outcome(old, new, Err(e)) && new.spec_player(player) == old.spec_player(player),
            }
        },
        IconEffect::Water => r == Ok::<ChoiceFuture, GameResult>(ChoiceFuture::Immediate(None)) && new == GameState {
            cur_player_water: if old.cur_player_water < u32::MAX {
                (old.cur_player_water + 1) as u32
            } else {
                u32::MAX
            },
            ..old
        },
        IconEffect::GainPunk => new == old && (r matches Ok(f) && is_punk_future(f, old, player)),
        IconEffect::Raid => r matches Ok(f) && raid_outcome(old, new, player, f),
    }
}

impl IconEffect {
    /// Returns whether this icon effect can be performed by the player.
    pub fn can_perform(self, gs: &GameState, player: Player) -> (r: bool)
        ensures
            r == gs.spec_effect_can_perform(player, self),
    {
        match self {
            IconEffect::Damage => true,  // if there's nothing to damage, the game is over!
            IconEffect::Injure => gs.player(player.other()).people().len() > 0,
            IconEffect::Restore => gs.player(player).has_restorable_card(),
            IconEffect::Draw => true,  // it's always possible to draw a card
            IconEffect::Water => true,  // it's always possible to gain water
            IconEffect::GainPunk => gs.player(player).has_empty_person_slot(),
            IconEffect::Raid => gs.can_raid(player),
        }
    }

    /// Performs the effect for the player.
    pub fn perform(self, gs: &mut GameState, player: Player) -> (r: Result<ChoiceFuture, GameResult>)
        requires
            old(gs).wf(),
            old(gs).spec_effect_ok(player, self),
        ensures
            final(gs).wf(),
            final(gs).card_total() == old(gs).card_total(),
            effect_outcome(*old(gs), *final(gs), player, self, r),
            r matches Ok(f) ==> f.valid_for(*final(gs)) && f.held_cards() == 0,
    {
        match self {
            IconEffect::Damage => Ok(gs.damage_enemy(player)),
            IconEffect::Injure => Ok(gs.injure_enemy(player)),
            IconEffect::Restore => Ok(gs.restore_card(player)),
            IconEffect::Draw => {
                match gs.draw_card_into_hand(player) {
                    Ok(_) => Ok(ChoiceFuture::Immediate(None)),
                    Err(e) => Err(e),
                }
            },
            IconEffect::Water => {
                gs.gain_water();
                Ok(ChoiceFuture::Immediate(None))
            },
            IconEffect::GainPunk => Ok(gs.gain_punk(player)),
            IconEffect::Raid => Ok(gs.raid(player)),
        }
    }
}

impl GameState {
    /// Draws `n` cards from the deck and puts them in this player's hand.
    /// Returns the types of the drawn cards, by identity number. When the cards run out first,
    /// the game ends in a tie.
    pub fn draw_cards_into_hand(&mut self, player: Player, n: usize) -> (r: Result<crate::cards::Cards, GameResult>)
        requires
            old(self).wf(),
        ensures
            final(self).wf(),
            final(self).card_total() == old(self).card_total(),
            final(self).spec_player(player.spec_other()) == old(self).spec_player(player.spec_other()),
            final(self).spec_player(player).columns == old(self).spec_player(player).columns,
            final(self).spec_player(player).events == old(self).spec_player(player).events,
            r is Ok <==> n <= super::draws_left(*old(self)),
            r is Err ==> r == Err::<crate::cards::Cards, GameResult>(GameResult::Tie),
            r matches Ok(cards) ==> {
                &&& cards@.len() == n
                &&& final(self).spec_player(player).hand@ == old(self).spec_player(player).hand@.add(cards@)
            },
            n <= old(self).deck@.len() ==> {
                let top = old(self).deck@.subrange(old(self).deck@.len() - n, old(self).deck@.len() as int);
                &&& r matches Ok(cards) && cards@ == top.map_values(|c: PersonOrEventType| c.spec_card_id()).to_multiset()
                &&& final(self).deck@ == old(self).deck@.subrange(0, old(self).deck@.len() - n)
            },
    {
        let ghost s0 = *self;
        let ghost len = s0.deck@.len() as int;
        let mut cards = crate::cards::Cards::new();
        let mut i: usize = 0;
        while i < n
            invariant
                i <= n,
                s0 == *old(self),
                len == s0.deck@.len(),
                self.wf(),
                self.card_total() == old(self).card_total(),
                self.spec_player(player.spec_other()) == old(self).spec_player(player.spec_other()),
                self.spec_player(player).columns == old(self).spec_player(player).columns,
                self.spec_player(player).events == old(self).spec_player(player).events,
                cards@.len() == i,
                self.spec_player(player).hand@ == old(self).spec_player(player).hand@.add(cards@),
                super::draws_left(*self) + i == super::draws_left(s0),
                n <= len ==> self.deck@ == s0.deck@.subrange(0, len - i),
                n <= len ==> cards@ == s0.deck@.subrange(len - i, len).map_values(
                    |c: PersonOrEventType| c.spec_card_id(),
                ).to_multiset(),
            decreases n - i,
        {
            let ghost before = *self;
            let drawn = self.draw_card_into_hand(player);
            proof {
                super::lemma_draw_step(before, *self, drawn);
            }
            let card = match drawn {
                Ok(c) => c,
                Err(e) => {
                    return Err(e);
                },
            };
            proof {
                assert(self.spec_player(player).hand@.len() <= self.card_total());
                assert(cards@.len() <= self.spec_player(player).hand@.len());
            }
            let ghost cards_before = cards@;
            cards.add_one(card.card_id());
            proof {
                if n <= len {
                    let f = |c: PersonOrEventType| c.spec_card_id();
                    let a = s0.deck@.subrange(len - i - 1, len);
                    let b = s0.deck@.subrange(len - i, len);
                    assert(before.deck@.len() == len - i);
                    assert(card == s0.deck@[len - i - 1]);
                    assert(self.deck@ =~= s0.deck@.subrange(0, len - i - 1));
                    assert(a.map_values(f) =~= seq![card.spec_card_id()] + b.map_values(f));
                    vstd::seq_lib::lemma_multiset_commutative(seq![card.spec_card_id()], b.map_values(f));
                    assert(seq![card.spec_card_id()].to_multiset() =~= vstd::multiset::Multiset::singleton(card.spec_card_id())) by {
                        assert(seq![card.spec_card_id()] =~= Seq::<u32>::empty().push(card.spec_card_id()));
                    }
                    assert(cards@ =~= a.map_values(f).to_multiset());
                }
            }
            i += 1;
        }
        proof {
            if n <= len {
                assert(s0.deck@.subrange(len - n, len).map_values(|c: PersonOrEventType| c.spec_card_id()).to_multiset()
                    == cards@);
            }
        }
        Ok(cards)
    }
}

} // verus!
