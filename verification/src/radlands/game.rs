//! Setting up a game, and a game together with the choice it waits for.

use rand::seq::SliceRandom;
use vstd::prelude::*;

use super::camps::CampType;
use super::choices::{
    is_turn_choice, outcome_cards, select_outcome, ActionChoice, Choice, DamageChoice, DamageColumnChoice, IconEffectChoice,
    MoveEventsChoice, PlayChoice, RescuePersonChoice, RestoreChoice,
};
use super::locations::Player;
use super::people::PersonType;
use super::player_state::{CardColumn, PlayerState};
use crate::cards::copies;
use vstd::multiset::Multiset;
use super::{
    hand_wf, lemma_card_id_round_trip, piles_wf, GameResult, GameState, PersonOrEventType, MAX_CARDS,
};

verus! {

broadcast use {vstd::multiset::group_multiset_axioms, vstd::seq_lib::group_to_multiset_ensures};

/// `choose_multiple` from `rand::seq::SliceRandom` with the thread-local generator: picks
/// `amount` camps (or all of them, if there are fewer) at distinct positions of the slice, in
/// an order that depends on chance. Stated: how many are picked, and that each picked position
/// is used once (so the picked camps are a sub-multiset of the slice).
#[verifier::external_body]
fn choose_camps(camp_types: &[CampType], amount: usize) -> (r: Vec<CampType>)
    ensures
        r@.len() == if amount < camp_types@.len() { amount as nat } else { camp_types@.len() },
        r@.to_multiset().subset_of(camp_types@.to_multiset()),
{
    camp_types.choose_multiple(&mut rand::thread_rng(), amount).cloned().collect()
}

/// `rand::random::<bool>()`: a fair coin flip. Nothing is stated of the result.
#[verifier::external_body]
fn flip_coin() -> (r: bool) {
    rand::random::<bool>()
}

/// The number of cards of the given person types in a deck.
pub open spec fn deck_size(person_types: Seq<PersonType>) -> nat
    decreases person_types.len(),
{
    if person_types.len() == 0 {
        0
    } else {
        deck_size(person_types.drop_last()) + person_types.last().spec_num_in_deck() as nat
    }
}

/// The number of cards that the given camps give at the start of the game.
pub open spec fn initial_cards(camps: Seq<CampType>) -> nat {
    camps[0].spec_num_initial_cards() as nat + camps[1].spec_num_initial_cards() as nat + camps[2].spec_num_initial_cards() as nat
}

/// The number of the camps that deal a starting card.
pub open spec fn dealing_camps(camps: Seq<CampType>) -> nat
    decreases camps.len(),
{
    if camps.len() == 0 {
        0
    } else {
        dealing_camps(camps.drop_last()) + camps.last().spec_num_initial_cards() as nat
    }
}

/// The most starting cards that six of the camps can deal: one for each camp that deals a
/// card, up to six.
pub open spec fn max_initial_cards(camp_types: Seq<CampType>) -> nat {
    if dealing_camps(camp_types) < 6 {
        dealing_camps(camp_types)
    } else {
        6
    }
}

/// Returns the most starting cards that six of the camps can deal (see
/// [`max_initial_cards`]); a new game needs a deck with more cards than that.
pub fn max_initial_cards_of(camp_types: &[CampType]) -> (r: usize)
    ensures
        r == max_initial_cards(camp_types@),
{
    let mut n: usize = 0;
    let mut i: usize = 0;
    while i < camp_types.len()
        invariant
            i <= camp_types@.len(),
            n == dealing_camps(camp_types@.subrange(0, i as int)),
            n <= i,
        decreases camp_types@.len() - i,
    {
        assert(camp_types@.subrange(0, i + 1).drop_last() =~= camp_types@.subrange(0, i as int));
        n = n + camp_types[i].num_initial_cards() as usize;
        i += 1;
    }
    assert(camp_types@.subrange(0, i as int) =~= camp_types@);
    if n < 6 {
        n
    } else {
        6
    }
}

/// The camps that deal a starting card are the Outposts, Victory Totems and Cannons.
proof fn lemma_dealing_camps_count(camps: Seq<CampType>)
    ensures
        dealing_camps(camps) == camps.to_multiset().count(CampType::Outpost) + camps.to_multiset().count(
            CampType::VictoryTotem,
        ) + camps.to_multiset().count(CampType::Cannon),
        dealing_camps(camps) <= camps.len(),
    decreases camps.len(),
{
    if camps.len() > 0 {
        lemma_dealing_camps_count(camps.drop_last());
        assert(camps.drop_last().push(camps.last()) =~= camps);
        vstd::seq_lib::to_multiset_build(camps.drop_last(), camps.last());
    } else {
        assert(camps.to_multiset() =~= Multiset::empty());
    }
}

/// Six camps taken from the given ones deal at most `max_initial_cards` starting cards.
pub proof fn lemma_initial_cards_at_most_max(camps: Seq<CampType>, camp_types: Seq<CampType>)
    requires
        camps.len() == 6,
        camps.to_multiset().subset_of(camp_types.to_multiset()),
    ensures
        initial_cards(camps) + initial_cards(camps.subrange(3, 6)) <= max_initial_cards(camp_types),
{
    lemma_dealing_camps_count(camps);
    lemma_dealing_camps_count(camp_types);
    reveal_with_fuel(dealing_camps, 7);
    assert(camps.drop_last().drop_last().drop_last().drop_last().drop_last().drop_last().len() == 0);
    assert(camps.subrange(3, 6)[0] == camps[3]);
    assert(camps.subrange(3, 6)[1] == camps[4]);
    assert(camps.subrange(3, 6)[2] == camps[5]);
    assert(camps.to_multiset().count(CampType::Outpost) <= camp_types.to_multiset().count(CampType::Outpost));
    assert(camps.to_multiset().count(CampType::VictoryTotem) <= camp_types.to_multiset().count(CampType::VictoryTotem));
    assert(camps.to_multiset().count(CampType::Cannon) <= camp_types.to_multiset().count(CampType::Cannon));
}

/// The identity numbers of the cards in a list, as a multiset.
pub open spec fn card_ids(s: Seq<PersonOrEventType>) -> Multiset<u32> {
    s.map_values(|c: PersonOrEventType| c.spec_card_id()).to_multiset()
}

/// The cards of a new game's deck: each of the person types as many times as it is in the deck.
pub open spec fn dealt_cards(person_types: Seq<PersonType>) -> Multiset<u32>
    decreases person_types.len(),
{
    if person_types.len() == 0 {
        Multiset::empty()
    } else {
        dealt_cards(person_types.drop_last()).add(
            copies(person_types.last().spec_index(), person_types.last().spec_num_in_deck() as nat),
        )
    }
}

/// The cards in the deck and in the hands, by identity number.
pub open spec fn cards_in_deck_and_hands(gs: GameState) -> Multiset<u32> {
    card_ids(gs.deck@).add(gs.player1.hand@).add(gs.player2.hand@)
}

/// Counting identity numbers counts the cards that have them.
pub proof fn lemma_card_ids_count(s: Seq<PersonOrEventType>, id: u32)
    ensures
        card_ids(s).count(id) == match PersonOrEventType::spec_from_card_id(id) {
            Some(c) => s.to_multiset().count(c),
            None => 0,
        },
    decreases s.len(),
{
    let ids = |c: PersonOrEventType| c.spec_card_id();
    if s.len() == 0 {
        assert(s.map_values(ids) =~= Seq::<u32>::empty());
    } else {
        let t = s.drop_last();
        let x = s.last();
        lemma_card_ids_count(t, id);
        assert(s =~= t.push(x));
        assert(s.map_values(ids) =~= t.map_values(ids).push(x.spec_card_id()));
        vstd::seq_lib::to_multiset_build(t.map_values(ids), x.spec_card_id());
        vstd::seq_lib::to_multiset_build(t, x);
        lemma_card_id_round_trip(x);
        super::lemma_card_id_inverse(id);
    }
}

/// Lists of the same cards hold the same identity numbers.
pub proof fn lemma_card_ids_permutation(a: Seq<PersonOrEventType>, b: Seq<PersonOrEventType>)
    requires
        a.to_multiset() == b.to_multiset(),
    ensures
        card_ids(a) == card_ids(b),
{
    assert forall|id: u32| card_ids(a).count(id) == card_ids(b).count(id) by {
        lemma_card_ids_count(a, id);
        lemma_card_ids_count(b, id);
    }
    assert(card_ids(a) =~= card_ids(b));
}

/// The identity numbers of a list split in two are those of the two parts.
pub proof fn lemma_card_ids_split(s: Seq<PersonOrEventType>, k: int)
    requires
        0 <= k <= s.len(),
    ensures
        card_ids(s) == card_ids(s.subrange(0, k)).add(card_ids(s.subrange(k, s.len() as int))),
{
    let ids = |c: PersonOrEventType| c.spec_card_id();
    assert(s.map_values(ids) =~= s.subrange(0, k).map_values(ids) + s.subrange(k, s.len() as int).map_values(ids));
    vstd::seq_lib::lemma_multiset_commutative(s.subrange(0, k).map_values(ids), s.subrange(k, s.len() as int).map_values(ids));
}

impl GameState {
    /// Sets up a game: the first three camps go to player 1 and the next three to player 2,
    /// each player draws their starting hand from the top (the end) of the deck (player 1
    /// first), the given player goes first with 1 water, and draws a card for the start of
    /// their turn. Returns the game state and the first player's choice of actions.
    pub fn setup(deck: Vec<PersonOrEventType>, camps: &[CampType], first: Player) -> (r: (GameState, Choice))
        requires
            camps@.len() == 6,
            forall|i: int| 0 <= i < deck@.len() ==> (#[trigger] deck@[i]).is_deck_card(),
            deck@.len() <= MAX_CARDS,
            deck@.len() >= initial_cards(camps@) + initial_cards(camps@.subrange(3, 6)) + 1,
        ensures
            r.0.wf(),
            r.1.valid_for(r.0),
            is_turn_choice(r.1, r.0),
            forall|i: int| 0 <= i < 3 ==> #[trigger] r.0.player1.events[i] is None,
            forall|i: int| 0 <= i < 3 ==> #[trigger] r.0.player2.events[i] is None,
            r.0.card_total() == deck@.len(),
            r.0.cur_player == first,
            r.0.cur_player_water == 1,
            !r.0.has_paid_to_draw,
            !r.0.has_played_event,
            !r.0.has_reshuffled_deck,
            r.0.discard@.len() == 0,
            forall|c: int| 0 <= c < 3 ==> #[trigger] r.0.player1.columns[c] == CardColumn::new_spec(camps@[c]),
            forall|c: int| 0 <= c < 3 ==> #[trigger] r.0.player2.columns[c] == CardColumn::new_spec(camps@[c + 3]),
            r.0.player1.hand@.len() == initial_cards(camps@) + if first == Player::Player1 { 1nat } else { 0 },
            r.0.player2.hand@.len() == initial_cards(camps@.subrange(3, 6)) + if first == Player::Player2 { 1nat } else { 0 },
            cards_in_deck_and_hands(r.0) == card_ids(deck@),
    {
        let mut deck = deck;
        let ghost d0 = deck@;
        let p1_camps = vec![camps[0], camps[1], camps[2]];
        let p2_camps = vec![camps[3], camps[4], camps[5]];
        assert(initial_cards(camps@.subrange(3, 6)) == camps@[3].spec_num_initial_cards() + camps@[4].spec_num_initial_cards() + camps@[5].spec_num_initial_cards());
        let player1 = PlayerState::new(p1_camps.as_slice(), &mut deck);
        let ghost d1 = deck@;
        let player2 = PlayerState::new(p2_camps.as_slice(), &mut deck);
        let mut gs = GameState {
            player1,
            player2,
            deck,
            discard: Vec::new(),
            cur_player: first,
            cur_player_water: 1,
            has_paid_to_draw: false,
            has_played_event: false,
            has_reshuffled_deck: false,
        };
        proof {
            let n1 = initial_cards(camps@);
            let n2 = initial_cards(camps@.subrange(3, 6));
            let cut1 = d0.len() - n1;
            let cut2 = d1.len() - n2;
            let ids = |c: PersonOrEventType| c.spec_card_id();
            assert(gs.deck@ == d0.subrange(0, cut2));
            assert forall|id: u32| #[trigger] gs.player1.hand@.count(id) > 0 implies super::is_deck_card_id(id) by {
                let s = d0.subrange(cut1, d0.len() as int);
                assert(s.map_values(ids).to_multiset().count(id) > 0);
                assert(s.map_values(ids).contains(id));
                let k = choose|k: int| 0 <= k < s.map_values(ids).len() && s.map_values(ids)[k] == id;
                assert(s[k] == d0[cut1 + k]);
                lemma_card_id_round_trip(s[k]);
            }
            assert forall|id: u32| #[trigger] gs.player2.hand@.count(id) > 0 implies super::is_deck_card_id(id) by {
                let s = d1.subrange(cut2, d1.len() as int);
                assert(s.map_values(ids).to_multiset().count(id) > 0);
                assert(s.map_values(ids).contains(id));
                let k = choose|k: int| 0 <= k < s.map_values(ids).len() && s.map_values(ids)[k] == id;
                assert(s[k] == d0[cut2 + k]);
                lemma_card_id_round_trip(s[k]);
            }
            assert(gs.player1.hand@.len() == n1);
            assert(gs.player2.hand@.len() == n2);
            assert(super::board_card_count(gs.player1) == 0);
            assert(super::board_card_count(gs.player2) == 0);
            assert(gs.card_total() == d0.len());
            assert(piles_wf(gs));
            lemma_card_ids_split(d0, cut1);
            lemma_card_ids_split(d1, cut2);
            assert(d1 == d0.subrange(0, cut1));
            assert(cards_in_deck_and_hands(gs) =~= card_ids(d0));
        }
        // have the current player draw a card for the start of their turn
        let ghost before_draw = gs;
        let drawn = gs.draw_card_into_hand(first);
        match drawn {
            Ok(_) => {},
            Err(_) => {
                // the deck holds a card for this draw
                assert(false);
            },
        }
        proof {
            let d2 = before_draw.deck@;
            let top = d2.len() - 1;
            lemma_card_ids_split(d2, top);
            assert(d2.subrange(0, top) == gs.deck@);
            let ids = |c: PersonOrEventType| c.spec_card_id();
            assert(d2.subrange(top, d2.len() as int).map_values(ids) =~= seq![d2.last().spec_card_id()]);
            assert(card_ids(d2.subrange(top, d2.len() as int)) =~= Multiset::singleton(d2.last().spec_card_id()));
            assert(cards_in_deck_and_hands(gs) =~= card_ids(d0));
        }
        // return the game state and initial choice of actions
        let choice = Choice::new_actions(&gs);
        (gs, choice)
    }

    /// Creates a game state and initial choice for a random new game: the deck holds the
    /// given person types, each as many times as it is in the deck, shuffled; six camps are
    /// picked at random, three for each player; and a coin flip picks who goes first.
    pub fn new(camp_types: &[CampType], person_types: &[PersonType]) -> (r: (GameState, Choice))
        requires
            camp_types@.len() >= 6,
            deck_size(person_types@) > max_initial_cards(camp_types@),
            deck_size(person_types@) <= MAX_CARDS,
        ensures
            r.0.wf(),
            forall|i: int| 0 <= i < 3 ==> #[trigger] r.0.player1.events[i] is None,
            forall|i: int| 0 <= i < 3 ==> #[trigger] r.0.player2.events[i] is None,
            r.1.valid_for(r.0),
            is_turn_choice(r.1, r.0),
            r.0.card_total() == deck_size(person_types@),
            r.0.cur_player_water == 1,
            !r.0.has_paid_to_draw,
            !r.0.has_played_event,
            !r.0.has_reshuffled_deck,
            r.0.discard@.len() == 0,
            cards_in_deck_and_hands(r.0) == dealt_cards(person_types@),
            exists|camps: Seq<CampType>|
                #![trigger camps.to_multiset()]
                {
                    &&& camps.len() == 6
                    &&& camps.to_multiset().subset_of(camp_types@.to_multiset())
                    &&& forall|c: int| 0 <= c < 3 ==> #[trigger] r.0.player1.columns[c] == CardColumn::new_spec(camps[c])
                    &&& forall|c: int| 0 <= c < 3 ==> #[trigger] r.0.player2.columns[c] == CardColumn::new_spec(camps[c + 3])
                    &&& r.0.player1.hand@.len() == initial_cards(camps) + if r.0.cur_player == Player::Player1 { 1nat } else { 0 }
                    &&& r.0.player2.hand@.len() == initial_cards(camps.subrange(3, 6)) + if r.0.cur_player == Player::Player2 { 1nat } else { 0 }
                },
    {
        // populate the deck and shuffle it
        let mut deck: Vec<PersonOrEventType> = Vec::new();
        let mut i: usize = 0;
        while i < person_types.len()
            invariant
                i <= person_types@.len(),
                deck@.len() == deck_size(person_types@.subrange(0, i as int)),
                deck_size(person_types@) <= MAX_CARDS,
                forall|k: int| 0 <= k < deck@.len() ==> (#[trigger] deck@[k]).is_deck_card(),
                card_ids(deck@) == dealt_cards(person_types@.subrange(0, i as int)),
            decreases person_types@.len() - i,
        {
            let person_type = person_types[i];
            proof {
                assert(person_types@.subrange(0, i + 1).drop_last() =~= person_types@.subrange(0, i as int));
                lemma_deck_size_prefix(person_types@, i + 1);
            }
            let mut n: u32 = 0;
            while n < person_type.num_in_deck()
                invariant
                    n <= person_type.spec_num_in_deck(),
                    deck@.len() == deck_size(person_types@.subrange(0, i as int)) + n,
                    deck_size(person_types@.subrange(0, i + 1)) <= MAX_CARDS,
                    deck_size(person_types@.subrange(0, i + 1)) == deck_size(person_types@.subrange(0, i as int)) + person_type.spec_num_in_deck(),
                    forall|k: int| 0 <= k < deck@.len() ==> (#[trigger] deck@[k]).is_deck_card(),
                    card_ids(deck@) == dealt_cards(person_types@.subrange(0, i as int)).add(copies(person_type.spec_index(), n as nat)),
                decreases person_type.spec_num_in_deck() - n,
            {
                let ghost before = deck@;
                deck.push(PersonOrEventType::Person(person_type));
                proof {
                    let ids = |c: PersonOrEventType| c.spec_card_id();
                    assert(deck@.map_values(ids) =~= before.map_values(ids).push(person_type.spec_index()));
                    vstd::seq_lib::to_multiset_build(before.map_values(ids), person_type.spec_index());
                    assert(card_ids(deck@) =~= dealt_cards(person_types@.subrange(0, i as int)).add(
                        copies(person_type.spec_index(), (n + 1) as nat),
                    ));
                }
                n += 1;
            }
            proof {
                let pre = person_types@.subrange(0, i + 1);
                assert(pre.drop_last() =~= person_types@.subrange(0, i as int));
                assert(pre.last() == person_type);
            }
            i += 1;
        }
        assert(person_types@.subrange(0, i as int) =~= person_types@);
        let ghost unshuffled = deck@;
        super::shuffle_cards(&mut deck);
        proof {
            lemma_card_ids_permutation(unshuffled, deck@);
        }
        proof {
            assert forall|k: int| 0 <= k < deck@.len() implies (#[trigger] deck@[k]).is_deck_card() by {
                assert(deck@.to_multiset().count(deck@[k]) > 0);
                assert(unshuffled.contains(deck@[k]));
            }
        }
        // pick 6 camps at random, 3 for each player
        let chosen_camps = choose_camps(camp_types, 6);
        // randomly pick which player goes first
        let first = Player::from_coin(flip_coin());
        proof {
            lemma_initial_cards_at_most_max(chosen_camps@, camp_types@);
        }
        let r = GameState::setup(deck, chosen_camps.as_slice(), first);
        assert(chosen_camps@.to_multiset().subset_of(camp_types@.to_multiset()));
        r
    }
}

/// The deck size of a prefix of the person types is at most that of all of them.
pub proof fn lemma_deck_size_prefix(person_types: Seq<PersonType>, k: int)
    requires
        0 <= k <= person_types.len(),
    ensures
        deck_size(person_types.subrange(0, k)) <= deck_size(person_types),
    decreases person_types.len() - k,
{
    if k < person_types.len() {
        lemma_deck_size_prefix(person_types, k + 1);
        assert(person_types.subrange(0, k + 1).drop_last() =~= person_types.subrange(0, k));
    } else {
        assert(person_types.subrange(0, k) =~= person_types);
    }
}

} // verus!

verus! {

/// A copy of a list of copyable items.
pub fn copy_vec<T: Copy>(v: &Vec<T>) -> (r: Vec<T>)
    ensures
        r@ == v@,
{
    let mut r: Vec<T> = Vec::new();
    let mut i: usize = 0;
    while i < v.len()
        invariant
            i <= v@.len(),
            r@ == v@.subrange(0, i as int),
        decreases v@.len() - i,
    {
        r.push(v[i]);
        i += 1;
    }
    assert(r@ =~= v@);
    r
}

/// Two player states that hold the same cards in hand and on the board.
pub open spec fn players_alike(a: PlayerState, b: PlayerState) -> bool {
    &&& a.hand@ == b.hand@
    &&& a.has_water_silo == b.has_water_silo
    &&& a.columns == b.columns
    &&& a.events == b.events
}

/// Two game states that hold the same cards in the same places, except that the deck may be
/// in another order.
pub open spec fn states_alike(a: GameState, b: GameState) -> bool {
    &&& a.deck@.to_multiset() == b.deck@.to_multiset()
    &&& a.deck@.len() == b.deck@.len()
    &&& a.discard@ == b.discard@
    &&& players_alike(a.player1, b.player1)
    &&& players_alike(a.player2, b.player2)
    &&& a.cur_player == b.cur_player
    &&& a.cur_player_water == b.cur_player_water
    &&& a.has_paid_to_draw == b.has_paid_to_draw
    &&& a.has_played_event == b.has_played_event
    &&& a.has_reshuffled_deck == b.has_reshuffled_deck
}

/// Game states alike are well formed alike, and a choice valid for one is valid for the other.
pub proof fn lemma_states_alike(a: GameState, b: GameState)
    requires
        states_alike(a, b),
    ensures
        a.card_total() == b.card_total(),
        a.wf() ==> b.wf(),
        forall|c: Choice| #[trigger] c.valid_for(a) ==> c.valid_for(b),
{
    assert(super::board_card_count(a.player1) == super::board_card_count(b.player1));
    assert(super::board_card_count(a.player2) == super::board_card_count(b.player2));
    if a.wf() {
        assert forall|i: int| 0 <= i < b.deck@.len() implies (#[trigger] b.deck@[i]).is_deck_card() by {
            assert(b.deck@.to_multiset().count(b.deck@[i]) > 0);
            assert(a.deck@.contains(b.deck@[i]));
        }
    }
    assert forall|p: Player| #[trigger] a.spec_player(p).spec_has_special_person(super::people::SpecialType::ZetoKhan)
        == b.spec_player(p).spec_has_special_person(super::people::SpecialType::ZetoKhan) by {}
    assert forall|p: Player| #[trigger] a.spec_can_raid(p) == b.spec_can_raid(p) by {}
    assert forall|c: Choice| #[trigger] c.valid_for(a) implies c.valid_for(b) by {
        match c {
            Choice::Action(ac) => {
                assert forall|i: int| 0 <= i < ac.actions@.len() implies b.spec_action_ok(#[trigger] ac.actions@[i]) by {
                    assert(a.spec_action_ok(ac.actions@[i]));
                }
            },
            _ => {},
        }
    }
}

impl PlayerState {
    /// Returns a copy of the player's state.
    pub fn duplicate(&self) -> (r: PlayerState)
        ensures
            players_alike(r, *self),
    {
        PlayerState {
            hand: self.hand.clone(),
            has_water_silo: self.has_water_silo,
            columns: self.columns,
            events: self.events,
        }
    }
}

impl GameState {
    /// Returns a copy of the game state.
    pub fn duplicate(&self) -> (r: GameState)
        ensures
            states_alike(r, *self),
            states_alike(*self, r),
            r.deck@ == self.deck@,
    {
        GameState {
            player1: self.player1.duplicate(),
            player2: self.player2.duplicate(),
            deck: copy_vec(&self.deck),
            discard: copy_vec(&self.discard),
            cur_player: self.cur_player,
            cur_player_water: self.cur_player_water,
            has_paid_to_draw: self.has_paid_to_draw,
            has_played_event: self.has_played_event,
            has_reshuffled_deck: self.has_reshuffled_deck,
        }
    }

    /// Returns a copy of the game state in which what no player has seen (the order of the
    /// deck) is shuffled anew.
    pub fn randomize_unobserved(&self) -> (r: GameState)
        ensures
            states_alike(*self, r),
            r.deck@.to_multiset() == self.deck@.to_multiset(),
    {
        let mut r = self.duplicate();
        super::shuffle_cards(&mut r.deck);
        r
    }
}

} // verus!

verus! {

impl Choice {
    /// Returns a copy of the choice.
    pub fn duplicate(&self) -> (r: Choice)
        ensures
            forall|gs: GameState| #[trigger] self.valid_for(gs) ==> r.valid_for(gs),
            r.spec_num_options() == self.spec_num_options(),
            r.held_cards() == self.held_cards(),
            forall|gs: GameState| #[trigger] r.spec_chooser(gs) == self.spec_chooser(gs),
            r.same_but_steps(*self),
            r.spec_next_steps() == self.spec_next_steps(),
    {
        match self {
            Choice::Action(c) => Choice::Action(ActionChoice { actions: copy_vec(&c.actions) }),
            Choice::PlayLoc(c) => Choice::PlayLoc(PlayChoice {
                chooser: c.chooser,
                person: c.person,
                locations: copy_vec(&c.locations),
                next_steps: copy_vec(&c.next_steps),
            }),
            Choice::Damage(c) => Choice::Damage(DamageChoice {
                chooser: c.chooser,
                destroy: c.destroy,
                locations: copy_vec(&c.locations),
                next_steps: copy_vec(&c.next_steps),
            }),
            Choice::Restore(c) => Choice::Restore(RestoreChoice {
                chooser: c.chooser,
                locations: copy_vec(&c.locations),
                next_steps: copy_vec(&c.next_steps),
            }),
            Choice::IconEffect(c) => Choice::IconEffect(IconEffectChoice {
                chooser: c.chooser,
                effects: copy_vec(&c.effects),
                next_steps: copy_vec(&c.next_steps),
            }),
            Choice::RescuePerson(c) => Choice::RescuePerson(RescuePersonChoice {
                chooser: c.chooser,
                locations: copy_vec(&c.locations),
                next_steps: copy_vec(&c.next_steps),
            }),
            Choice::MoveEvents(c) => Choice::MoveEvents(MoveEventsChoice { chooser: c.chooser, next_steps: copy_vec(&c.next_steps) }),
            Choice::DamageColumn(c) => Choice::DamageColumn(DamageColumnChoice {
                chooser: c.chooser,
                columns: copy_vec(&c.columns),
                next_steps: copy_vec(&c.next_steps),
            }),
        }
    }
}

/// A game: its state together with the choice it waits for, or the result of the finished
/// game. Every option that a game offers can be chosen.
pub struct Game {
    state: GameState,
    outcome: Result<Choice, GameResult>,
}

impl Game {
    #[verifier::type_invariant]
    spec fn inv(self) -> bool {
        &&& self.state.wf()
        &&& self.outcome matches Ok(c) ==> c.valid_for(self.state)
    }

    /// The game state.
    pub closed spec fn spec_state(self) -> GameState {
        self.state
    }

    /// The choice the game waits for, or the result of the finished game.
    pub closed spec fn spec_outcome(self) -> Result<Choice, GameResult> {
        self.outcome
    }

    /// The number of options of the choice the game waits for (none once it is finished).
    pub open spec fn spec_num_options(self) -> nat {
        match self.spec_outcome() {
            Ok(c) => c.spec_num_options(),
            Err(_) => 0,
        }
    }

    /// The cards in the game: in the game state, and held by the choice the game waits for.
    pub open spec fn cards_in_game(self) -> nat {
        self.spec_state().card_total() + match self.spec_outcome() {
            Ok(c) => c.held_cards(),
            Err(_) => 0,
        }
    }

    /// Creates a random new game (see [`GameState::new`]).
    pub fn new(camp_types: &[CampType], person_types: &[PersonType]) -> (r: Game)
        requires
            camp_types@.len() >= 6,
            deck_size(person_types@) > max_initial_cards(camp_types@),
            deck_size(person_types@) <= MAX_CARDS,
        ensures
            r.spec_outcome() matches Ok(c) && is_turn_choice(c, r.spec_state()),
            forall|i: int| 0 <= i < 3 ==> #[trigger] r.spec_state().player1.events[i] is None,
            forall|i: int| 0 <= i < 3 ==> #[trigger] r.spec_state().player2.events[i] is None,
            r.cards_in_game() == deck_size(person_types@),
            r.spec_state().cur_player_water == 1,
            r.spec_state().discard@.len() == 0,
            !r.spec_state().has_paid_to_draw,
            !r.spec_state().has_played_event,
            !r.spec_state().has_reshuffled_deck,
            cards_in_deck_and_hands(r.spec_state()) == dealt_cards(person_types@),
            exists|camps: Seq<CampType>|
                #![trigger camps.to_multiset()]
                {
                    let gs = r.spec_state();
                    &&& camps.len() == 6
                    &&& camps.to_multiset().subset_of(camp_types@.to_multiset())
                    &&& forall|c: int| 0 <= c < 3 ==> #[trigger] gs.player1.columns[c] == CardColumn::new_spec(camps[c])
                    &&& forall|c: int| 0 <= c < 3 ==> #[trigger] gs.player2.columns[c] == CardColumn::new_spec(camps[c + 3])
                    &&& gs.player1.hand@.len() == initial_cards(camps) + if gs.cur_player == Player::Player1 { 1nat } else { 0 }
                    &&& gs.player2.hand@.len() == initial_cards(camps.subrange(3, 6)) + if gs.cur_player == Player::Player2 { 1nat } else { 0 }
                },
    {
        let (state, choice) = GameState::new(camp_types, person_types);
        Game { state, outcome: Ok(choice) }
    }

    /// Creates a game set up from the given deck and camps (see [`GameState::setup`]).
    pub fn from_setup(deck: Vec<PersonOrEventType>, camps: &[CampType], first: Player) -> (r: Game)
        requires
            camps@.len() == 6,
            forall|i: int| 0 <= i < deck@.len() ==> (#[trigger] deck@[i]).is_deck_card(),
            deck@.len() <= MAX_CARDS,
            deck@.len() >= initial_cards(camps@) + initial_cards(camps@.subrange(3, 6)) + 1,
        ensures
            r.spec_outcome() matches Ok(c) && is_turn_choice(c, r.spec_state()),
            r.spec_state().cur_player == first,
            r.cards_in_game() == deck@.len(),
            forall|i: int| 0 <= i < 3 ==> #[trigger] r.spec_state().player1.events[i] is None,
            forall|i: int| 0 <= i < 3 ==> #[trigger] r.spec_state().player2.events[i] is None,
            r.spec_state().cur_player_water == 1,
            r.spec_state().discard@.len() == 0,
            forall|c: int| 0 <= c < 3 ==> #[trigger] r.spec_state().player1.columns[c] == CardColumn::new_spec(camps@[c]),
            forall|c: int| 0 <= c < 3 ==> #[trigger] r.spec_state().player2.columns[c] == CardColumn::new_spec(camps@[c + 3]),
            r.spec_state().player1.hand@.len() == initial_cards(camps@) + if first == Player::Player1 { 1nat } else { 0 },
            r.spec_state().player2.hand@.len() == initial_cards(camps@.subrange(3, 6)) + if first == Player::Player2 { 1nat } else { 0 },
            cards_in_deck_and_hands(r.spec_state()) == card_ids(deck@),
    {
        let (state, choice) = GameState::setup(deck, camps, first);
        Game { state, outcome: Ok(choice) }
    }

    /// Returns the game state.
    pub fn state(&self) -> (r: &GameState)
        ensures
            *r == self.spec_state(),
            r.wf(),
    {
        proof {
            use_type_invariant(self);
        }
        &self.state
    }

    /// Returns the choice the game waits for, if it is not finished.
    pub fn choice(&self) -> (r: Option<&Choice>)
        ensures
            match self.spec_outcome() {
                Ok(c) => r == Some(&c) && c.valid_for(self.spec_state()) && c.spec_num_options() > 0,
                Err(_) => r is None,
            },
            self.spec_state().wf(),
    {
        proof {
            use_type_invariant(self);
        }
        match &self.outcome {
            Ok(c) => Some(c),
            Err(_) => None,
        }
    }

    /// Returns the result of the game, if it is finished.
    pub fn result(&self) -> (r: Option<GameResult>)
        ensures
            match self.spec_outcome() {
                Ok(_) => r is None,
                Err(res) => r == Some(res),
            },
    {
        match &self.outcome {
            Ok(_) => None,
            Err(res) => Some(*res),
        }
    }

    /// Returns the number of options of the choice the game waits for (0 once it is finished).
    pub fn num_options(&self) -> (r: usize)
        ensures
            r == self.spec_num_options(),
    {
        proof {
            use_type_invariant(self);
        }
        match &self.outcome {
            Ok(c) => c.num_options(),
            Err(_) => 0,
        }
    }

    /// Returns the player who makes the choice the game waits for, if it is not finished.
    pub fn chooser(&self) -> (r: Option<Player>)
        ensures
            match self.spec_outcome() {
                Ok(c) => r == Some(c.spec_chooser(self.spec_state())),
                Err(_) => r is None,
            },
    {
        match &self.outcome {
            Ok(c) => Some(c.chooser(&self.state)),
            Err(_) => None,
        }
    }

    /// Chooses an option of the choice the game waits for and advances the game to the next
    /// choice or to its end. No card enters the game.
    pub fn select(self, option: usize) -> (r: Game)
        requires
            option < self.spec_num_options(),
        ensures
            r.cards_in_game() <= self.cards_in_game(),
            self.spec_outcome() matches Ok(c) && select_outcome(c, self.spec_state(), r.spec_state(), option as int, r.spec_outcome()),
    {
        proof {
            use_type_invariant(&self);
        }
        let Game { state, outcome } = self;
        let mut state = state;
        match outcome {
            Ok(c) => {
                let next = c.select(&mut state, option);
                Game { state, outcome: next }
            },
            Err(res) => Game { state, outcome: Err(res) },
        }
    }

    /// Returns a copy of the game.
    pub fn duplicate(&self) -> (r: Game)
        ensures
            r.spec_state().deck@ == self.spec_state().deck@,
            states_alike(self.spec_state(), r.spec_state()),
            r.spec_num_options() == self.spec_num_options(),
            r.cards_in_game() == self.cards_in_game(),
            self.spec_outcome() matches Ok(c) ==> (r.spec_outcome() matches Ok(d) && d.same_but_steps(c)
                && d.spec_next_steps() == c.spec_next_steps()),
            self.spec_outcome() matches Err(e) ==> r.spec_outcome() == Err::<Choice, GameResult>(e),
    {
        proof {
            use_type_invariant(self);
        }
        let state = self.state.duplicate();
        proof {
            lemma_states_alike(self.state, state);
        }
        let outcome = match &self.outcome {
            Ok(c) => Ok(c.duplicate()),
            Err(res) => Err(*res),
        };
        Game { state, outcome }
    }

    /// Returns a copy of the game in which the order of the deck, which no player has seen, is
    /// shuffled anew.
    pub fn randomize_unobserved(&self) -> (r: Game)
        ensures
            states_alike(self.spec_state(), r.spec_state()),
            r.spec_num_options() == self.spec_num_options(),
            r.cards_in_game() == self.cards_in_game(),
            self.spec_outcome() matches Ok(c) ==> (r.spec_outcome() matches Ok(d) && d.same_but_steps(c)
                && d.spec_next_steps() == c.spec_next_steps()),
            self.spec_outcome() matches Err(e) ==> r.spec_outcome() == Err::<Choice, GameResult>(e),
    {
        proof {
            use_type_invariant(self);
        }
        let state = self.state.randomize_unobserved();
        proof {
            lemma_states_alike(self.state, state);
        }
        let outcome = match &self.outcome {
            Ok(c) => Ok(c.duplicate()),
            Err(res) => Err(*res),
        };
        Game { state, outcome }
    }
}

} // verus!
