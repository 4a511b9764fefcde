//! What a player observes of the game, condensed into a hash that identifies the nodes of a
//! search tree.
//!
//! The observation is written out as a canonical sequence of bytes: the piles and the player's
//! own hand as counts per card identity (their order is unknown to the player), the number of
//! cards in the opponent's hand, both boards, the turn's counters and flags, and the kind of
//! the pending choice with its number of options. The bytes are then hashed with std's
//! `DefaultHasher`.

use std::collections::hash_map::DefaultHasher;
use std::hash::Hasher;
use vstd::multiset::Multiset;
use vstd::prelude::*;
use vstd::std_specs::hash::DefaultHasherAdditionalSpecFns;

use super::camps::CampType;
use super::choices::Choice;
use super::events::EventType;
use super::game::states_alike;
use super::locations::Player;
use super::player_state::{Camp, CampStatus, CardColumn, NonPunkStatus, Person, PlayerState};
use super::{GameState, PersonOrEventType};

verus! {

/// One more than the largest card identity number: the piles and hands are written as counts
/// for each identity below it.
pub const CARD_ID_LIMIT: u32 = 102;

/// The eight bytes of a number, least significant first.
pub open spec fn u64_bytes(x: u64) -> Seq<u8> {
    seq![
        (x % 0x100) as u8,
        ((x / 0x100) % 0x100) as u8,
        ((x / 0x1_0000) % 0x100) as u8,
        ((x / 0x100_0000) % 0x100) as u8,
        ((x / 0x1_0000_0000) % 0x100) as u8,
        ((x / 0x100_0000_0000) % 0x100) as u8,
        ((x / 0x1_0000_0000_0000) % 0x100) as u8,
        (x / 0x100_0000_0000_0000) as u8,
    ]
}

/// A flag as a byte.
pub open spec fn flag_byte(b: bool) -> u8 {
    if b { 1 } else { 0 }
}

/// A player as a byte.
pub open spec fn player_byte(p: Player) -> u8 {
    match p {
        Player::Player1 => 1,
        Player::Player2 => 2,
    }
}

/// A camp type as a byte.
pub open spec fn camp_type_byte(t: CampType) -> u8 {
    match t {
        CampType::Outpost => 0,
        CampType::Railgun => 1,
        CampType::VictoryTotem => 2,
        CampType::ScudLauncher => 3,
        CampType::Cannon => 4,
        CampType::Garage => 5,
    }
}

/// A camp's damage status as a byte.
pub open spec fn camp_status_byte(s: CampStatus) -> u8 {
    match s {
        CampStatus::Undamaged => 0,
        CampStatus::Damaged => 1,
        CampStatus::Destroyed => 2,
    }
}

/// A person's damage/readiness status as a byte.
pub open spec fn person_status_byte(s: NonPunkStatus) -> u8 {
    match s {
        NonPunkStatus::Ready => 0,
        NonPunkStatus::NotReady => 1,
        NonPunkStatus::Injured => 2,
    }
}

/// An event slot as a byte.
pub open spec fn event_byte(e: Option<EventType>) -> u8 {
    match e {
        None => 0,
        Some(EventType::Strafe) => 1,
        Some(EventType::Raiders) => 2,
    }
}

/// The kind of a choice as a byte.
pub open spec fn choice_byte(c: Choice) -> u8 {
    match c {
        Choice::Action(_) => 0,
        Choice::PlayLoc(_) => 1,
        Choice::Damage(_) => 2,
        Choice::Restore(_) => 3,
        Choice::IconEffect(_) => 4,
        Choice::RescuePerson(_) => 5,
        Choice::MoveEvents(_) => 6,
        Choice::DamageColumn(_) => 7,
    }
}

/// A camp as four bytes.
pub open spec fn camp_bytes(c: Camp) -> Seq<u8> {
    seq![camp_type_byte(c.camp_type), camp_status_byte(c.status), flag_byte(c.is_ready), c.times_used]
}

/// A person slot as four bytes.
pub open spec fn slot_bytes(o: Option<Person>) -> Seq<u8> {
    match o {
        None => seq![0u8, 0u8, 0u8, 0u8],
        Some(Person::Punk { is_ready, times_used }) => seq![1u8, flag_byte(is_ready), times_used, 0u8],
        Some(Person::NonPunk { person_type, status, times_used }) => seq![
            2u8,
            person_type.spec_index() as u8,
            person_status_byte(status),
            times_used,
        ],
    }
}

/// A column: its camp, then its two person slots.
pub open spec fn column_bytes(col: CardColumn) -> Seq<u8> {
    camp_bytes(col.camp) + slot_bytes(col.person_slots[0]) + slot_bytes(col.person_slots[1])
}

/// A player's board: the three columns, then the three event slots.
pub open spec fn board_bytes(ps: PlayerState) -> Seq<u8> {
    column_bytes(ps.columns[0]) + column_bytes(ps.columns[1]) + column_bytes(ps.columns[2])
        + seq![event_byte(ps.events[0]), event_byte(ps.events[1]), event_byte(ps.events[2])]
}

/// The counts of card identities `0 .. n` in a multiset of identities, eight bytes each.
pub open spec fn id_count_bytes(m: Multiset<u32>, n: nat) -> Seq<u8>
    decreases n,
{
    if n == 0 {
        Seq::empty()
    } else {
        id_count_bytes(m, (n - 1) as nat) + u64_bytes(m.count((n - 1) as u32) as u64)
    }
}

/// How many cards of the given identity a pile holds.
pub open spec fn pile_count_of(m: Multiset<PersonOrEventType>, id: u32) -> nat {
    match PersonOrEventType::spec_from_card_id(id) {
        Some(c) => m.count(c),
        None => 0,
    }
}

/// The counts of card identities `0 .. n` in a pile, eight bytes each.
pub open spec fn pile_count_bytes(m: Multiset<PersonOrEventType>, n: nat) -> Seq<u8>
    decreases n,
{
    if n == 0 {
        Seq::empty()
    } else {
        pile_count_bytes(m, (n - 1) as nat) + u64_bytes(pile_count_of(m, (n - 1) as u32) as u64)
    }
}

/// The number of options of a choice, as the library counts it (at most the largest `usize`).
pub open spec fn option_count(c: Choice) -> u64 {
    if c.spec_num_options() <= usize::MAX {
        c.spec_num_options() as u64
    } else {
        usize::MAX as u64
    }
}

/// The cards that `player` observes by number: the deck and the discard pile as counts, their
/// own hand as counts, and the size of the opponent's hand.
pub open spec fn card_count_bytes(gs: GameState, player: Player) -> Seq<u8> {
    pile_count_bytes(gs.deck@.to_multiset(), CARD_ID_LIMIT as nat)
        + pile_count_bytes(gs.discard@.to_multiset(), CARD_ID_LIMIT as nat)
        + id_count_bytes(gs.spec_player(player).hand@, CARD_ID_LIMIT as nat)
        + u64_bytes(gs.spec_player(player.spec_other()).hand@.len() as u64)
}

/// The state of the turn: whose turn it is with its water, whether the other player holds the
/// water silo, the turn's flags, and the kind and size of the pending choice.
pub open spec fn turn_bytes(gs: GameState, choice: Choice) -> Seq<u8> {
    seq![player_byte(gs.cur_player)]
        + u64_bytes(gs.cur_player_water as u64)
        + seq![
            flag_byte(gs.spec_player(gs.cur_player.spec_other()).has_water_silo),
            flag_byte(gs.has_paid_to_draw),
            flag_byte(gs.has_played_event),
            flag_byte(gs.has_reshuffled_deck),
            choice_byte(choice),
        ]
        + u64_bytes(option_count(choice))
}

/// Everything that `player` observes of the game while `choice` is pending, as bytes: the
/// cards they can count, their board and the opponent's, and the state of the turn.
pub open spec fn observed_bytes(gs: GameState, choice: Choice, player: Player) -> Seq<u8> {
    card_count_bytes(gs, player) + board_bytes(gs.spec_player(player)) + board_bytes(
        gs.spec_player(player.spec_other()),
    ) + turn_bytes(gs, choice)
}

fn push_u64(bytes: &mut Vec<u8>, x: u64)
    ensures
        final(bytes)@ == old(bytes)@ + u64_bytes(x),
{
    bytes.push((x % 0x100) as u8);
    bytes.push(((x / 0x100) % 0x100) as u8);
    bytes.push(((x / 0x1_0000) % 0x100) as u8);
    bytes.push(((x / 0x100_0000) % 0x100) as u8);
    bytes.push(((x / 0x1_0000_0000) % 0x100) as u8);
    bytes.push(((x / 0x100_0000_0000) % 0x100) as u8);
    bytes.push(((x / 0x1_0000_0000_0000) % 0x100) as u8);
    bytes.push((x / 0x100_0000_0000_0000) as u8);
    assert(bytes@ =~= old(bytes)@ + u64_bytes(x));
}

fn flag_to_byte(b: bool) -> (r: u8)
    ensures
        r == flag_byte(b),
{
    if b { 1 } else { 0 }
}

fn player_to_byte(p: Player) -> (r: u8)
    ensures
        r == player_byte(p),
{
    match p {
        Player::Player1 => 1,
        Player::Player2 => 2,
    }
}

fn event_to_byte(e: Option<EventType>) -> (r: u8)
    ensures
        r == event_byte(e),
{
    match e {
        None => 0,
        Some(EventType::Strafe) => 1,
        Some(EventType::Raiders) => 2,
    }
}

fn choice_to_byte(c: &Choice) -> (r: u8)
    ensures
        r == choice_byte(*c),
{
    match c {
        Choice::Action(_) => 0,
        Choice::PlayLoc(_) => 1,
        Choice::Damage(_) => 2,
        Choice::Restore(_) => 3,
        Choice::IconEffect(_) => 4,
        Choice::RescuePerson(_) => 5,
        Choice::MoveEvents(_) => 6,
        Choice::DamageColumn(_) => 7,
    }
}

fn push_camp(bytes: &mut Vec<u8>, c: Camp)
    ensures
        final(bytes)@ == old(bytes)@ + camp_bytes(c),
{
    let t: u8 = match c.camp_type {
        CampType::Outpost => 0,
        CampType::Railgun => 1,
        CampType::VictoryTotem => 2,
        CampType::ScudLauncher => 3,
        CampType::Cannon => 4,
        CampType::Garage => 5,
    };
    let s: u8 = match c.status {
        CampStatus::Undamaged => 0,
        CampStatus::Damaged => 1,
        CampStatus::Destroyed => 2,
    };
    bytes.push(t);
    bytes.push(s);
    bytes.push(flag_to_byte(c.is_ready));
    bytes.push(c.times_used);
    assert(bytes@ =~= old(bytes)@ + camp_bytes(c));
}

fn push_slot(bytes: &mut Vec<u8>, o: Option<Person>)
    ensures
        final(bytes)@ == old(bytes)@ + slot_bytes(o),
{
    match o {
        None => {
            bytes.push(0);
            bytes.push(0);
            bytes.push(0);
            bytes.push(0);
        },
        Some(Person::Punk { is_ready, times_used }) => {
            bytes.push(1);
            bytes.push(flag_to_byte(is_ready));
            bytes.push(times_used);
            bytes.push(0);
        },
        Some(Person::NonPunk { person_type, status, times_used }) => {
            let s: u8 = match status {
                NonPunkStatus::Ready => 0,
                NonPunkStatus::NotReady => 1,
                NonPunkStatus::Injured => 2,
            };
            bytes.push(2);
            bytes.push(person_type.index() as u8);
            bytes.push(s);
            bytes.push(times_used);
        },
    }
    assert(bytes@ =~= old(bytes)@ + slot_bytes(o));
}

fn push_column(bytes: &mut Vec<u8>, col: &CardColumn)
    ensures
        final(bytes)@ == old(bytes)@ + column_bytes(*col),
{
    push_camp(bytes, col.camp);
    push_slot(bytes, col.person_slots[0]);
    push_slot(bytes, col.person_slots[1]);
    assert(bytes@ =~= old(bytes)@ + column_bytes(*col));
}

fn push_board(bytes: &mut Vec<u8>, ps: &PlayerState)
    ensures
        final(bytes)@ == old(bytes)@ + board_bytes(*ps),
{
    push_column(bytes, &ps.columns[0]);
    push_column(bytes, &ps.columns[1]);
    push_column(bytes, &ps.columns[2]);
    bytes.push(event_to_byte(ps.events[0]));
    bytes.push(event_to_byte(ps.events[1]));
    bytes.push(event_to_byte(ps.events[2]));
    assert(bytes@ =~= old(bytes)@ + board_bytes(*ps));
}

/// How many cards of the given type the pile holds.
fn count_in_pile(pile: &Vec<PersonOrEventType>, card: PersonOrEventType) -> (r: usize)
    ensures
        r == pile@.to_multiset().count(card),
{
    broadcast use {vstd::seq_lib::group_to_multiset_ensures, vstd::multiset::group_multiset_axioms};

    let mut n: usize = 0;
    let mut i: usize = 0;
    while i < pile.len()
        invariant
            i <= pile@.len(),
            n <= i,
            n == pile@.subrange(0, i as int).to_multiset().count(card),
        decreases pile@.len() - i,
    {
        let ghost prefix = pile@.subrange(0, i as int);
        assert(pile@.subrange(0, i + 1) =~= prefix.push(pile@[i as int]));
        proof {
            vstd::seq_lib::to_multiset_build(prefix, pile@[i as int]);
        }
        if pile[i] == card {
            n = n + 1;
        }
        i += 1;
    }
    assert(pile@.subrange(0, i as int) =~= pile@);
    n
}

fn push_pile_counts(bytes: &mut Vec<u8>, pile: &Vec<PersonOrEventType>)
    ensures
        final(bytes)@ == old(bytes)@ + pile_count_bytes(pile@.to_multiset(), CARD_ID_LIMIT as nat),
{
    let ghost m = pile@.to_multiset();
    let mut id: u32 = 0;
    while id < CARD_ID_LIMIT
        invariant
            id <= CARD_ID_LIMIT,
            m == pile@.to_multiset(),
            bytes@ == old(bytes)@ + pile_count_bytes(m, id as nat),
        decreases CARD_ID_LIMIT - id,
    {
        let n: usize = match PersonOrEventType::from_card_id(id) {
            Some(c) => count_in_pile(pile, c),
            None => 0,
        };
        assert(n == pile_count_of(m, id));
        push_u64(bytes, n as u64);
        assert(pile_count_bytes(m, (id + 1) as nat) == pile_count_bytes(m, id as nat) + u64_bytes(
            pile_count_of(m, id) as u64,
        ));
        assert(bytes@ =~= old(bytes)@ + pile_count_bytes(m, (id + 1) as nat));
        id += 1;
    }
}

fn push_hand_counts(bytes: &mut Vec<u8>, ps: &PlayerState)
    ensures
        final(bytes)@ == old(bytes)@ + id_count_bytes(ps.hand@, CARD_ID_LIMIT as nat),
{
    let mut id: u32 = 0;
    while id < CARD_ID_LIMIT
        invariant
            id <= CARD_ID_LIMIT,
            bytes@ == old(bytes)@ + id_count_bytes(ps.hand@, id as nat),
        decreases CARD_ID_LIMIT - id,
    {
        let n = ps.hand.count_of(id);
        push_u64(bytes, n as u64);
        assert(id_count_bytes(ps.hand@, (id + 1) as nat) == id_count_bytes(ps.hand@, id as nat)
            + u64_bytes(ps.hand@.count(id) as u64));
        assert(bytes@ =~= old(bytes)@ + id_count_bytes(ps.hand@, (id + 1) as nat));
        id += 1;
    }
}

fn push_card_counts(bytes: &mut Vec<u8>, gs: &GameState, player: Player)
    requires
        gs.wf(),
    ensures
        final(bytes)@ == old(bytes)@ + card_count_bytes(*gs, player),
{
    push_pile_counts(bytes, &gs.deck);
    push_pile_counts(bytes, &gs.discard);
    push_hand_counts(bytes, gs.player(player));
    let opponent_cards = gs.player(player.other()).hand.count();
    push_u64(bytes, opponent_cards as u64);
    assert(bytes@ =~= old(bytes)@ + card_count_bytes(*gs, player));
}

fn push_turn(bytes: &mut Vec<u8>, gs: &GameState, choice: &Choice)
    ensures
        final(bytes)@ == old(bytes)@ + turn_bytes(*gs, *choice),
{
    bytes.push(player_to_byte(gs.cur_player));
    push_u64(bytes, gs.cur_player_water as u64);
    let ghost before_flags = bytes@;
    bytes.push(flag_to_byte(gs.player(gs.cur_player.other()).has_water_silo));
    bytes.push(flag_to_byte(gs.has_paid_to_draw));
    bytes.push(flag_to_byte(gs.has_played_event));
    bytes.push(flag_to_byte(gs.has_reshuffled_deck));
    bytes.push(choice_to_byte(choice));
    assert(bytes@ =~= before_flags + seq![
        flag_byte(gs.spec_player(gs.cur_player.spec_other()).has_water_silo),
        flag_byte(gs.has_paid_to_draw),
        flag_byte(gs.has_played_event),
        flag_byte(gs.has_reshuffled_deck),
        choice_byte(*choice),
    ]);
    let n = choice.num_options();
    push_u64(bytes, n as u64);
    assert(bytes@ =~= old(bytes)@ + turn_bytes(*gs, *choice));
}

/// The bytes of what `player` observes of the game while `choice` is pending.
pub fn observed_bytes_of(gs: &GameState, choice: &Choice, player: Player) -> (r: Vec<u8>)
    requires
        gs.wf(),
    ensures
        r@ == observed_bytes(*gs, *choice, player),
{
    let mut bytes: Vec<u8> = Vec::new();
    push_card_counts(&mut bytes, gs, player);
    push_board(&mut bytes, gs.player(player));
    push_board(&mut bytes, gs.player(player.other()));
    push_turn(&mut bytes, gs, choice);
    assert(bytes@ =~= observed_bytes(*gs, *choice, player));
    bytes
}

/// The state of the game as observed by one player, as a hash: what identifies a node of the
/// search tree.
#[derive(Debug, Clone, Copy, PartialEq, Eq, Structural, Hash)]
pub struct ObservedState(pub u64);

impl ObservedState {
    /// The observed state of `player` while `choice` is pending: the hash, by std's
    /// `DefaultHasher`, of the bytes of what they observe.
    pub fn from_game_state(game_state: &GameState, choice: &Choice, player: Player) -> (r: ObservedState)
        requires
            game_state.wf(),
        ensures
            r.0 == DefaultHasher::spec_finish(seq![observed_bytes(*game_state, *choice, player)]),
    {
        let bytes = observed_bytes_of(game_state, choice, player);
        let mut hasher = DefaultHasher::new();
        hasher.write(bytes.as_slice());
        ObservedState(hasher.finish())
    }
}

/// A player observes the same of two game states that differ only in the order of the deck:
/// shuffling the deck anew leaves every player's observed state as it was.
pub proof fn lemma_observed_state_ignores_deck_order(a: GameState, b: GameState, choice: Choice, player: Player)
    requires
        states_alike(a, b),
    ensures
        observed_bytes(a, choice, player) == observed_bytes(b, choice, player),
{
    assert(a.spec_player(player).hand@ == b.spec_player(player).hand@);
    assert(a.spec_player(player.spec_other()) .hand@ == b.spec_player(player.spec_other()).hand@);
    assert(a.discard@.to_multiset() == b.discard@.to_multiset());
}

} // verus!
