//! The state of one player's board and hand.

use vstd::prelude::*;
use vstd::multiset::Multiset;

use crate::cards::Cards;

use super::camps::CampType;
use super::events::EventType;
use super::locations::{CardRowIndex, ColumnIndex, PersonRowIndex, PlayLocation, PlayerCardLocation};
use super::people::{PersonType, SpecialType};

verus! {

broadcast use {vstd::multiset::group_multiset_axioms, vstd::seq_lib::group_to_multiset_ensures};

/// Enum representing the damage status of a camp.
#[derive(Debug, Copy, Clone, PartialEq, Eq, Structural, Hash)]
pub enum CampStatus {
    Undamaged,
    Damaged,
    Destroyed,
}

/// A camp on the board.
#[derive(Debug, Copy, Clone, PartialEq, Eq, Structural, Hash)]
pub struct Camp {
    /// The camp type.
    pub camp_type: CampType,
    /// The damage status of the camp.
    pub status: CampStatus,
    /// Whether the camp is ready (ignoring destruction).
    pub is_ready: bool,
    /// How many times the camp's abilities were used this turn.
    pub times_used: u8,
}

/// The status that damaging a camp leads to.
pub open spec fn damaged_camp_status(status: CampStatus, destroy: bool) -> CampStatus {
    match status {
        CampStatus::Undamaged => if destroy {
            CampStatus::Destroyed
        } else {
            CampStatus::Damaged
        },
        _ => CampStatus::Destroyed,
    }
}

impl Camp {
    /// Creates an undamaged, ready camp of the given type.
    pub fn new(camp_type: CampType) -> (r: Camp)
        ensures
            r == (Camp { camp_type, status: CampStatus::Undamaged, is_ready: true, times_used: 0 }),
    {
        Camp { camp_type, status: CampStatus::Undamaged, is_ready: true, times_used: 0 }
    }

    /// Damages or destroys the camp.
    /// If `destroy` is true, the camp is always destroyed; otherwise, it is damaged.
    /// Does not check for win conditions; that must be done separately.
    pub fn damage(&mut self, destroy: bool)
        requires
            old(self).status != CampStatus::Destroyed,
        ensures
            *final(self) == (Camp { status: damaged_camp_status(old(self).status, destroy), ..*old(self) }),
    {
        match self.status {
            CampStatus::Undamaged => {
                self.status = if destroy {
                    CampStatus::Destroyed
                } else {
                    CampStatus::Damaged
                };
            },
            CampStatus::Damaged => self.status = CampStatus::Destroyed,
            CampStatus::Destroyed => {},
        }
    }

    /// Restores the camp.
    pub fn restore(&mut self)
        requires
            old(self).status == CampStatus::Damaged,
        ensures
            *final(self) == (Camp { status: CampStatus::Undamaged, ..*old(self) }),
    {
        self.status = CampStatus::Undamaged;
    }

    /// Returns whether the camp is destroyed.
    pub fn is_destroyed(&self) -> (r: bool)
        ensures
            r == (self.status == CampStatus::Destroyed),
    {
        self.status == CampStatus::Destroyed
    }

    /// Returns whether the camp is damaged and can be restored.
    pub fn is_restorable(&self) -> (r: bool)
        ensures
            r == (self.status == CampStatus::Damaged),
    {
        self.status == CampStatus::Damaged
    }

    /// Whether the camp is ready to use an ability, as a specification.
    pub open spec fn spec_is_ready(self) -> bool {
        self.is_ready && self.status != CampStatus::Destroyed
    }

    /// Returns whether the camp is ready to use an ability.
    pub fn is_ready(&self) -> (r: bool)
        ensures
            r == self.spec_is_ready(),
    {
        self.is_ready && self.status != CampStatus::Destroyed
    }

    /// Sets whether the camp is ready. Has no effect on a destroyed camp's usability.
    pub fn set_ready(&mut self, is_ready: bool)
        ensures
            *final(self) == (Camp { is_ready, ..*old(self) }),
    {
        self.is_ready = is_ready;
    }

    /// Sets the camp to be not ready.
    pub fn set_not_ready(&mut self)
        ensures
            *final(self) == (Camp { is_ready: false, ..*old(self) }),
    {
        self.is_ready = false;
    }

    /// Returns how many times the camp's abilities were used this turn.
    pub fn times_used(&self) -> (r: u8)
        ensures
            r == self.times_used,
    {
        self.times_used
    }

    /// Counts a use of the camp's abilities (the count stops at its maximum).
    pub fn increment_times_used(&mut self)
        ensures
            *final(self) == (Camp { times_used: sat_inc(old(self).times_used), ..*old(self) }),
    {
        self.times_used = if self.times_used < 255 { self.times_used + 1 } else { 255 };
    }

    /// Readies the camp and clears its use count at the end of its owner's turn.
    pub fn end_turn_reset(&mut self)
        ensures
            *final(self) == (Camp { is_ready: true, times_used: 0, ..*old(self) }),
    {
        self.is_ready = true;
        self.times_used = 0;
    }
}

/// A counter incremented by one, stopping at its maximum.
pub open spec fn sat_inc(x: u8) -> u8 {
    if x < 255 {
        (x + 1) as u8
    } else {
        255
    }
}

/// Enum representing the damage/readiness of a non-punk person.
#[derive(Debug, Copy, Clone, PartialEq, Eq, Structural, Hash)]
pub enum NonPunkStatus {
    /// Not injured and ready.
    Ready,
    /// Not injured but not ready.
    NotReady,
    /// Injured.
    Injured,
}

/// A person played on the board (a punk or face-up person).
#[derive(Debug, Copy, Clone, PartialEq, Eq, Structural, Hash)]
pub enum Person {
    Punk {
        /// Whether the punk is ready.
        is_ready: bool,
        /// How many times the punk's abilities were used this turn.
        times_used: u8,
    },
    NonPunk {
        /// The identity of the person card.
        person_type: PersonType,
        /// The damage/readiness status of the person.
        status: NonPunkStatus,
        /// How many times the person's abilities were used this turn.
        times_used: u8,
    },
}

impl Person {
    /// Whether this person is injured, as a specification.
    pub open spec fn spec_is_injured(self) -> bool {
        self matches Person::NonPunk { status: NonPunkStatus::Injured, .. }
    }

    /// Whether this is an uninjured (so active) person of the given special type.
    pub open spec fn spec_is_active_special(self, special_type: SpecialType) -> bool {
        match self {
            Person::NonPunk { person_type, status, .. } => person_type.spec_special_type()
                == special_type && status != NonPunkStatus::Injured,
            Person::Punk { .. } => false,
        }
    }

    /// Whether this person is ready to use an ability, as a specification.
    pub open spec fn spec_is_ready(self) -> bool {
        match self {
            Person::Punk { is_ready, .. } => is_ready,
            Person::NonPunk { status, .. } => status == NonPunkStatus::Ready,
        }
    }

    /// The person with the readiness set as `set_ready` sets it.
    pub open spec fn spec_readied(self) -> Person {
        match self {
            Person::Punk { times_used, .. } => Person::Punk { is_ready: true, times_used },
            Person::NonPunk { person_type, status, times_used } => Person::NonPunk {
                person_type,
                status: if status == NonPunkStatus::NotReady {
                    NonPunkStatus::Ready
                } else {
                    status
                },
                times_used,
            },
        }
    }

    /// The person with the readiness cleared as `set_not_ready` clears it.
    pub open spec fn spec_unreadied(self) -> Person {
        match self {
            Person::Punk { times_used, .. } => Person::Punk { is_ready: false, times_used },
            Person::NonPunk { person_type, status, times_used } => Person::NonPunk {
                person_type,
                status: if status == NonPunkStatus::Ready {
                    NonPunkStatus::NotReady
                } else {
                    status
                },
                times_used,
            },
        }
    }

    /// The number of times this person's abilities were used this turn.
    pub open spec fn spec_times_used(self) -> u8 {
        match self {
            Person::Punk { times_used, .. } => times_used,
            Person::NonPunk { times_used, .. } => times_used,
        }
    }

    /// The person with the use count set.
    pub open spec fn with_times_used(self, t: u8) -> Person {
        match self {
            Person::Punk { is_ready, .. } => Person::Punk { is_ready, times_used: t },
            Person::NonPunk { person_type, status, .. } => Person::NonPunk {
                person_type,
                status,
                times_used: t,
            },
        }
    }

    /// Creates a punk, ready only when `force_ready` (Karli Blaze's trait) holds.
    pub fn new_punk(force_ready: bool) -> (r: Person)
        ensures
            r == (Person::Punk { is_ready: force_ready, times_used: 0 }),
    {
        Person::Punk { is_ready: force_ready, times_used: 0 }
    }

    /// Creates a Person from a person type to be played onto the board. It is ready if
    /// `force_ready` (Karli Blaze's trait) holds or if the type enters play ready; otherwise
    /// it is not ready and uninjured.
    pub fn new_non_punk(person_type: PersonType, force_ready: bool) -> (r: Person)
        ensures
            r == (Person::NonPunk {
                person_type,
                status: if force_ready || person_type.spec_enters_play_ready() {
                    NonPunkStatus::Ready
                } else {
                    NonPunkStatus::NotReady
                },
                times_used: 0,
            }),
    {
        Person::NonPunk {
            person_type,
            status: if force_ready || person_type.enters_play_ready() {
                NonPunkStatus::Ready
            } else {
                NonPunkStatus::NotReady
            },
            times_used: 0,
        }
    }

    /// Returns whether this person is injured (and therefore can be restored).
    pub fn is_injured(&self) -> (r: bool)
        ensures
            r == self.spec_is_injured(),
    {
        match self {
            Person::NonPunk { status: NonPunkStatus::Injured, .. } => true,
            _ => false,
        }
    }

    /// Returns whether this person is ready to use an ability.
    pub fn is_ready(&self) -> (r: bool)
        ensures
            r == self.spec_is_ready(),
    {
        match self {
            Person::Punk { is_ready, .. } => *is_ready,
            Person::NonPunk { status, .. } => *status == NonPunkStatus::Ready,
        }
    }

    /// Restores this person.
    pub fn restore(&mut self)
        requires
            old(self).spec_is_injured(),
        ensures
            *final(self) == (match *old(self) {
                Person::NonPunk { person_type, times_used, .. } => Person::NonPunk {
                    person_type,
                    status: NonPunkStatus::NotReady,
                    times_used,
                },
                p => p,
            }),
    {
        match self {
            Person::Punk { .. } => {},
            Person::NonPunk { status, .. } => {
                *status = NonPunkStatus::NotReady;
            },
        }
    }

    /// Sets this person to be ready. Has no effect if the person is injured or already ready.
    pub fn set_ready(&mut self)
        ensures
            *final(self) == old(self).spec_readied(),
    {
        match self {
            Person::Punk { is_ready, .. } => {
                *is_ready = true;
            },
            Person::NonPunk { status, .. } => {
                if *status == NonPunkStatus::NotReady {
                    *status = NonPunkStatus::Ready;
                }
            },
        }
    }

    /// Sets this person to be not ready. Has no effect if the person is injured or already not
    /// ready.
    pub fn set_not_ready(&mut self)
        ensures
            *final(self) == old(self).spec_unreadied(),
    {
        match self {
            Person::Punk { is_ready, .. } => {
                *is_ready = false;
            },
            Person::NonPunk { status, .. } => {
                if *status == NonPunkStatus::Ready {
                    *status = NonPunkStatus::NotReady;
                }
            },
        }
    }

    /// Returns how many times this person's abilities were used this turn.
    pub fn times_used(&self) -> (r: u8)
        ensures
            r == self.spec_times_used(),
    {
        match self {
            Person::Punk { times_used, .. } => *times_used,
            Person::NonPunk { times_used, .. } => *times_used,
        }
    }

    /// Counts a use of the person's abilities (the count stops at its maximum).
    pub fn increment_times_used(&mut self)
        ensures
            *final(self) == old(self).with_times_used(sat_inc(old(self).spec_times_used())),
    {
        match self {
            Person::Punk { times_used, .. } => {
                *times_used = if *times_used < 255 { *times_used + 1 } else { 255 };
            },
            Person::NonPunk { times_used, .. } => {
                *times_used = if *times_used < 255 { *times_used + 1 } else { 255 };
            },
        }
    }

    /// Readies the person (unless injured) and clears its use count at the end of its owner's
    /// turn.
    pub fn end_turn_reset(&mut self)
        ensures
            *final(self) == old(self).spec_readied().with_times_used(0),
    {
        self.set_ready();
        match self {
            Person::Punk { times_used, .. } => {
                *times_used = 0;
            },
            Person::NonPunk { times_used, .. } => {
                *times_used = 0;
            },
        }
    }
}


/// The slot holds an uninjured person of the given special type.
pub open spec fn slot_is_active_special(o: Option<Person>, st: SpecialType) -> bool {
    o matches Some(p) && p.spec_is_active_special(st)
}

/// The item of an option as a list of zero or one items.
pub open spec fn opt_seq<T>(o: Option<T>) -> Seq<T> {
    match o {
        Some(x) => seq![x],
        None => Seq::empty(),
    }
}

/// One item if the condition holds, else none.
pub open spec fn if_seq<T>(b: bool, x: T) -> Seq<T> {
    if b {
        seq![x]
    } else {
        Seq::empty()
    }
}

/// A column of the board: a camp with up to two people in front of it.
#[derive(Debug, Copy, Clone, PartialEq, Eq, Hash)]
pub struct CardColumn {
    /// The column's camp.
    pub camp: Camp,
    /// The people slots in the column. The first slot (index 0) is the one in the back.
    pub person_slots: [Option<Person>; 2],
}

impl CardColumn {
    /// The people in the column, back to front.
    pub open spec fn spec_people(self) -> Seq<Person> {
        opt_seq(self.person_slots[0]) + opt_seq(self.person_slots[1])
    }

    /// The rows (0 or 1) of the people in the column, back to front.
    pub open spec fn spec_person_rows(self) -> Seq<nat> {
        if_seq(self.person_slots[0] is Some, 0nat) + if_seq(self.person_slots[1] is Some, 1nat)
    }

    /// The row of the frontmost person, if any.
    pub open spec fn spec_frontmost_person_row(self) -> Option<nat> {
        if self.person_slots[1] is Some {
            Some(1)
        } else if self.person_slots[0] is Some {
            Some(0)
        } else {
            None
        }
    }

    /// The card row (0 for the camp) of the frontmost card, if any.
    pub open spec fn spec_frontmost_card_row(self) -> Option<nat> {
        match self.spec_frontmost_person_row() {
            Some(r) => Some(r + 1),
            None => if self.camp.status == CampStatus::Destroyed {
                None
            } else {
                Some(0)
            },
        }
    }

    /// The card rows of the cards in the column (people and a non-destroyed camp).
    pub open spec fn spec_card_rows(self) -> Seq<nat> {
        if_seq(self.camp.status != CampStatus::Destroyed, 0nat) + if_seq(
            self.person_slots[0] is Some,
            1nat,
        ) + if_seq(self.person_slots[1] is Some, 2nat)
    }

    /// The card rows of the damaged cards in the column that can be restored.
    pub open spec fn spec_restorable_card_rows(self) -> Seq<nat> {
        if_seq(self.camp.status == CampStatus::Damaged, 0nat) + if_seq(
            self.person_slots[0] matches Some(p) && p.spec_is_injured(),
            1nat,
        ) + if_seq(self.person_slots[1] matches Some(p) && p.spec_is_injured(), 2nat)
    }

    /// Whether the column has no people and a destroyed camp.
    pub open spec fn spec_is_empty(self) -> bool {
        &&& self.camp.status == CampStatus::Destroyed
        &&& self.person_slots[0] is None
        &&& self.person_slots[1] is None
    }

    /// Creates a new column with the given camp.
    pub fn new(camp_type: CampType) -> (r: CardColumn)
        ensures
            r == (CardColumn { camp: Camp {
                camp_type,
                status: CampStatus::Undamaged,
                is_ready: true,
                times_used: 0,
            }, person_slots: [None, None] }),
    {
        CardColumn { camp: Camp::new(camp_type), person_slots: [None, None] }
    }

    /// Returns the person at the given row, if any.
    pub fn person_slot(&self, loc: PersonRowIndex) -> (r: Option<&Person>)
        ensures
            match r {
                Some(p) => self.person_slots[loc.index() as int] == Some(*p),
                None => self.person_slots[loc.index() as int] is None,
            },
    {
        self.person_slots[loc.as_usize()].as_ref()
    }

    /// Returns the person slot at the given row as mutable.
    pub fn person_slot_mut(&mut self, loc: PersonRowIndex) -> (r: &mut Option<Person>)
        ensures
            *r == old(self).person_slots[loc.index() as int],
            final(self).camp == old(self).camp,
            final(self).person_slots[loc.index() as int] == *final(r),
            final(self).person_slots[1 - loc.index()] == old(self).person_slots[1 - loc.index()],
    {
        let i = loc.as_usize();
        &mut self.person_slots[i]
    }

    /// Returns the people in the column, back to front.
    pub fn people(&self) -> (r: Vec<Person>)
        ensures
            r@ == self.spec_people(),
    {
        let mut r: Vec<Person> = Vec::new();
        if let Some(p) = self.person_slots[0] {
            r.push(p);
        }
        if let Some(p) = self.person_slots[1] {
            r.push(p);
        }
        assert(r@ =~= self.spec_people());
        r
    }

    /// Returns the people in the column with their rows, back to front.
    pub fn enumerate_people(&self) -> (r: Vec<(PersonRowIndex, Person)>)
        ensures
            r@.map_values(|e: (PersonRowIndex, Person)| e.1) == self.spec_people(),
            r@.map_values(|e: (PersonRowIndex, Person)| e.0.index()) == self.spec_person_rows(),
    {
        let mut r: Vec<(PersonRowIndex, Person)> = Vec::new();
        if let Some(p) = self.person_slots[0] {
            r.push((PersonRowIndex::new(0), p));
        }
        if let Some(p) = self.person_slots[1] {
            r.push((PersonRowIndex::new(1), p));
        }
        assert(r@.map_values(|e: (PersonRowIndex, Person)| e.1) =~= self.spec_people());
        assert(r@.map_values(|e: (PersonRowIndex, Person)| e.0.index()) =~= self.spec_person_rows());
        r
    }

    /// Returns whether this column has any damaged cards that can be restored.
    pub fn has_restorable_card(&self) -> (r: bool)
        ensures
            r == (self.spec_restorable_card_rows().len() > 0),
    {
        self.camp.is_restorable() || (match self.person_slots[0] {
            Some(p) => p.is_injured(),
            None => false,
        }) || (match self.person_slots[1] {
            Some(p) => p.is_injured(),
            None => false,
        })
    }

    /// Returns the rows of any damaged and restorable cards in this column.
    pub fn restorable_card_rows(&self) -> (r: Vec<CardRowIndex>)
        ensures
            r@.map_values(|x: CardRowIndex| x.index()) == self.spec_restorable_card_rows(),
    {
        let mut r: Vec<CardRowIndex> = Vec::new();
        if self.camp.is_restorable() {
            r.push(CardRowIndex::camp());
        }
        if let Some(p) = self.person_slots[0] {
            if p.is_injured() {
                r.push(CardRowIndex::new(1));
            }
        }
        if let Some(p) = self.person_slots[1] {
            if p.is_injured() {
                r.push(CardRowIndex::new(2));
            }
        }
        assert(r@.map_values(|x: CardRowIndex| x.index()) =~= self.spec_restorable_card_rows());
        r
    }

    /// Returns the row (0 or 1) of the frontmost person in the column, or None if there are
    /// no people in the column.
    pub fn frontmost_person_row(&self) -> (r: Option<PersonRowIndex>)
        ensures
            match r {
                Some(x) => self.spec_frontmost_person_row() == Some(x.index()),
                None => self.spec_frontmost_person_row() is None,
            },
    {
        if self.person_slots[1].is_some() {
            Some(PersonRowIndex::new(1))
        } else if self.person_slots[0].is_some() {
            Some(PersonRowIndex::new(0))
        } else {
            None
        }
    }

    /// Returns the row (0 (camp), 1, or 2) of the frontmost card in the column, or None if
    /// there are no people in the column and the camp is destroyed.
    pub fn frontmost_card_row(&self) -> (r: Option<CardRowIndex>)
        ensures
            match r {
                Some(x) => self.spec_frontmost_card_row() == Some(x.index()),
                None => self.spec_frontmost_card_row() is None,
            },
    {
        if let Some(front_person_row) = self.frontmost_person_row() {
            // there's a person in the column; return the row of the person
            Some(front_person_row.to_card_row())
        } else if self.camp.is_destroyed() {
            // there are no people and the camp is destroyed, so there are no unprotected cards
            None
        } else {
            // the (non-destroyed) camp is the only thing in the column
            Some(CardRowIndex::camp())
        }
    }

    /// Returns the rows of the cards in the column (people or non-destroyed camp).
    pub fn card_rows(&self) -> (r: Vec<CardRowIndex>)
        ensures
            r@.map_values(|x: CardRowIndex| x.index()) == self.spec_card_rows(),
    {
        let mut r: Vec<CardRowIndex> = Vec::new();
        if !self.camp.is_destroyed() {
            r.push(CardRowIndex::camp());
        }
        if self.person_slots[0].is_some() {
            r.push(CardRowIndex::new(1));
        }
        if self.person_slots[1].is_some() {
            r.push(CardRowIndex::new(2));
        }
        assert(r@.map_values(|x: CardRowIndex| x.index()) =~= self.spec_card_rows());
        r
    }

    /// Returns whether the column is empty (no people and camp is destroyed).
    pub fn is_empty(&self) -> (r: bool)
        ensures
            r == self.spec_is_empty(),
    {
        self.camp.is_destroyed() && self.person_slots[0].is_none() && self.person_slots[1].is_none()
    }

    /// Readies the camp and the uninjured people and clears their use counts.
    pub fn end_turn_reset(&mut self)
        ensures
            final(self).camp == (Camp { is_ready: true, times_used: 0, ..old(self).camp }),
            forall|i: int|
                0 <= i < 2 ==> #[trigger] final(self).person_slots[i] == match old(
                    self,
                ).person_slots[i] {
                    Some(p) => Some(p.spec_readied().with_times_used(0)),
                    None => None,
                },
    {
        self.camp.end_turn_reset();
        if let Some(p) = &mut self.person_slots[0] {
            p.end_turn_reset();
        }
        if let Some(p) = &mut self.person_slots[1] {
            p.end_turn_reset();
        }
    }
}


/// Board locations as `(column, card row)` pairs.
pub open spec fn loc_pairs(v: Seq<PlayerCardLocation>) -> Seq<(nat, nat)> {
    v.map_values(|l: PlayerCardLocation| (l.spec_column().index(), l.spec_row().index()))
}

/// Play locations as `(column, person row)` pairs.
pub open spec fn play_loc_pairs(v: Seq<PlayLocation>) -> Seq<(nat, nat)> {
    v.map_values(|l: PlayLocation| (l.spec_column().index(), l.spec_row().index()))
}

/// The rows of a column paired with the column.
pub open spec fn in_column(c: nat, rows: Seq<nat>) -> Seq<(nat, nat)> {
    rows.map_values(|r: nat| (c, r))
}

/// Appends the locations of the given rows of a column.
fn push_column_locs(out: &mut Vec<PlayerCardLocation>, c: ColumnIndex, rows: Vec<CardRowIndex>)
    ensures
        loc_pairs(final(out)@) == loc_pairs(old(out)@) + in_column(
            c.index(),
            rows@.map_values(|x: CardRowIndex| x.index()),
        ),
{
    let mut i: usize = 0;
    let ghost o = out@;
    while i < rows.len()
        invariant
            i <= rows@.len(),
            loc_pairs(out@) == loc_pairs(o) + in_column(
                c.index(),
                rows@.map_values(|x: CardRowIndex| x.index()).subrange(0, i as int),
            ),
        decreases rows@.len() - i,
    {
        let ghost before = out@;
        out.push(PlayerCardLocation::new(c, rows[i]));
        assert(loc_pairs(out@) =~= loc_pairs(before).push((c.index(), rows@[i as int].index())));
        assert(rows@.map_values(|x: CardRowIndex| x.index()).subrange(0, i + 1) =~= rows@.map_values(
            |x: CardRowIndex| x.index(),
        ).subrange(0, i as int).push(rows@[i as int].index()));
        i += 1;
    }
    assert(rows@.map_values(|x: CardRowIndex| x.index()).subrange(0, i as int) =~= rows@.map_values(
        |x: CardRowIndex| x.index(),
    ));
}

/// Represents the state of a player's board and hand.
pub struct PlayerState {
    /// The cards in the player's hand, not including Water Silo, by card identity number.
    pub hand: Cards,
    /// When it is not this player's turn, whether this player has Water Silo in their hand.
    /// (They are assumed to not have it in their hand when it *is* this player's turn.)
    pub has_water_silo: bool,
    /// The three columns of the player's board.
    pub columns: [CardColumn; 3],
    /// The three event slots of the player's board.
    pub events: [Option<EventType>; 3],
}

impl PlayerState {
    /// The people on the board, column by column, back to front.
    pub open spec fn spec_people(self) -> Seq<Person> {
        self.columns[0].spec_people() + self.columns[1].spec_people()
            + self.columns[2].spec_people()
    }

    /// The locations of the people on the board, as `(column, person row)` pairs.
    pub open spec fn spec_person_locs(self) -> Seq<(nat, nat)> {
        in_column(0, self.columns[0].spec_person_rows()) + in_column(
            1,
            self.columns[1].spec_person_rows(),
        ) + in_column(2, self.columns[2].spec_person_rows())
    }

    /// The locations of the cards on the board (people and non-destroyed camps).
    pub open spec fn spec_card_locs(self) -> Seq<(nat, nat)> {
        in_column(0, self.columns[0].spec_card_rows()) + in_column(
            1,
            self.columns[1].spec_card_rows(),
        ) + in_column(2, self.columns[2].spec_card_rows())
    }

    /// The locations of the unprotected cards: the frontmost card of each column.
    pub open spec fn spec_unprotected_card_locs(self) -> Seq<(nat, nat)> {
        in_column(0, opt_seq(self.columns[0].spec_frontmost_card_row())) + in_column(
            1,
            opt_seq(self.columns[1].spec_frontmost_card_row()),
        ) + in_column(2, opt_seq(self.columns[2].spec_frontmost_card_row()))
    }

    /// The card locations of the unprotected people: the frontmost person of each column.
    pub open spec fn spec_unprotected_person_locs(self) -> Seq<(nat, nat)> {
        in_column(0, opt_seq(self.columns[0].spec_frontmost_card_row_of_person())) + in_column(
            1,
            opt_seq(self.columns[1].spec_frontmost_card_row_of_person()),
        ) + in_column(2, opt_seq(self.columns[2].spec_frontmost_card_row_of_person()))
    }

    /// The locations of the damaged cards that can be restored.
    pub open spec fn spec_restorable_card_locs(self) -> Seq<(nat, nat)> {
        in_column(0, self.columns[0].spec_restorable_card_rows()) + in_column(
            1,
            self.columns[1].spec_restorable_card_rows(),
        ) + in_column(2, self.columns[2].spec_restorable_card_rows())
    }

    /// Whether some person slot is empty.
    pub open spec fn spec_has_empty_person_slot(self) -> bool {
        exists|c: int, r: int| 0 <= c < 3 && 0 <= r < 2 && #[trigger] self.columns[c].person_slots[r] is None
    }

    /// Whether some person slot is empty in a column whose camp's destruction is as given.
    pub open spec fn spec_has_empty_holdout_slot(self, camp_destroyed: bool) -> bool {
        exists|c: int, r: int|
            0 <= c < 3 && 0 <= r < 2 && (self.columns[c].camp.status == CampStatus::Destroyed)
                == camp_destroyed && #[trigger] self.columns[c].person_slots[r] is None
    }

    /// Whether an uninjured person of the given special type is on the board.
    pub open spec fn spec_has_special_person(self, special_type: SpecialType) -> bool {
        exists|c: int, r: int|
            0 <= c < 3 && 0 <= r < 2 && slot_is_active_special(#[trigger] self.columns[c].person_slots[r], special_type)
    }

    /// Whether an event of the given number of turns can be played into the queue.
    pub open spec fn spec_can_play_event(self, resolve_turns: u8) -> bool {
        resolve_turns == 0 || exists|i: int|
            resolve_turns - 1 <= i < 3 && #[trigger] self.events[i] is None
    }

    /// Whether some event is in the queue.
    pub open spec fn spec_has_event(self) -> bool {
        exists|i: int| 0 <= i < 3 && #[trigger] self.events[i] is Some
    }

    /// Whether the raid effect can play or advance the Raiders event.
    pub open spec fn spec_can_raid(self) -> bool {
        if self.events[0] == Some(EventType::Raiders) {
            true
        } else if self.events[1] == Some(EventType::Raiders) {
            self.events[0] is None
        } else if self.events[2] == Some(EventType::Raiders) {
            self.events[1] is None
        } else {
            self.spec_can_play_event(EventType::Raiders.spec_resolve_turns())
        }
    }

    /// Creates a new `PlayerState` with the given camps, drawing an initial hand from the top
    /// (the end) of the given deck.
    pub fn new(camps: &[CampType], deck: &mut Vec<crate::radlands::PersonOrEventType>) -> (r:
        PlayerState)
        requires
            camps@.len() == 3,
            old(deck)@.len() >= camps@[0].spec_num_initial_cards() + camps@[1].spec_num_initial_cards()
                + camps@[2].spec_num_initial_cards(),
        ensures
            ({
                let hand_size = camps@[0].spec_num_initial_cards() + camps@[1].spec_num_initial_cards()
                    + camps@[2].spec_num_initial_cards();
                let cut = old(deck)@.len() - hand_size;
                &&& final(deck)@ == old(deck)@.subrange(0, cut)
                &&& r.hand@ == old(deck)@.subrange(cut, old(deck)@.len() as int).map_values(
                    |c: crate::radlands::PersonOrEventType| c.spec_card_id(),
                ).to_multiset()
            }),
            !r.has_water_silo,
            r.columns[0] == CardColumn::new_spec(camps@[0]),
            r.columns[1] == CardColumn::new_spec(camps@[1]),
            r.columns[2] == CardColumn::new_spec(camps@[2]),
            r.events[0] is None,
            r.events[1] is None,
            r.events[2] is None,
    {
        // determine the number of starting cards from the set of camps
        let hand_size: usize = camps[0].num_initial_cards() as usize + camps[1].num_initial_cards() as usize
            + camps[2].num_initial_cards() as usize;
        // draw the top hand_size cards from the deck
        let ghost d0 = deck@;
        let mut hand = Cards::new();
        let mut k: usize = 0;
        while k < hand_size
            invariant
                k <= hand_size,
                hand_size <= d0.len(),
                deck@ == d0.subrange(0, d0.len() - k),
                hand@ == d0.subrange(d0.len() - k, d0.len() as int).map_values(
                    |c: crate::radlands::PersonOrEventType| c.spec_card_id(),
                ).to_multiset(),
                hand@.len() == k,
            decreases hand_size - k,
        {
            let c = deck.pop().unwrap();
            proof {
                let lo = d0.len() - k - 1;
                let ids = |c: crate::radlands::PersonOrEventType| c.spec_card_id();
                let before = d0.subrange(d0.len() - k, d0.len() as int);
                let after = d0.subrange(lo, d0.len() as int);
                assert(after =~= seq![c] + before);
                assert(after.map_values(ids) =~= seq![c.spec_card_id()] + before.map_values(ids));
                vstd::seq_lib::lemma_multiset_commutative(seq![c.spec_card_id()], before.map_values(ids));
                assert(seq![c.spec_card_id()].to_multiset() =~= Multiset::empty().insert(c.spec_card_id())) by {
                    assert(Seq::<u32>::empty().push(c.spec_card_id()) =~= seq![c.spec_card_id()]);
                }
            }
            hand.add_one(c.card_id());
            k += 1;
        }
        PlayerState {
            hand,
            has_water_silo: false,
            columns: [CardColumn::new(camps[0]), CardColumn::new(camps[1]), CardColumn::new(camps[2])],
            events: [None, None, None],
        }
    }

    /// Returns the column at the given index.
    pub fn column(&self, index: ColumnIndex) -> (r: &CardColumn)
        ensures
            *r == self.columns[index.index() as int],
    {
        &self.columns[index.as_usize()]
    }

    /// Returns the column at the given index as mutable.
    pub fn column_mut(&mut self, index: ColumnIndex) -> (r: &mut CardColumn)
        ensures
            *r == old(self).columns[index.index() as int],
            index.index() < 3,
            final(self).columns[index.index() as int] == *final(r),
            forall|k: int| 0 <= k < 3 && k != index.index() ==> #[trigger] final(self).columns[k] == old(self).columns[k],
            final(self).hand == old(self).hand,
            final(self).has_water_silo == old(self).has_water_silo,
            final(self).events == old(self).events,
    {
        let i = index.as_usize();
        &mut self.columns[i]
    }

    /// Returns the person at the given location, if any.
    pub fn person_slot(&self, loc: PlayLocation) -> (r: Option<&Person>)
        ensures
            match r {
                Some(p) => self.columns[loc.spec_column().index() as int].person_slots[loc.spec_row().index() as int] == Some(*p),
                None => self.columns[loc.spec_column().index() as int].person_slots[loc.spec_row().index() as int] is None,
            },
    {
        self.columns[loc.column().as_usize()].person_slot(loc.row())
    }

    /// Returns whether this player has an empty person slot.
    pub fn has_empty_person_slot(&self) -> (r: bool)
        ensures
            r == self.spec_has_empty_person_slot(),
    {
        let r = self.columns[0].person_slots[0].is_none() || self.columns[0].person_slots[1].is_none()
            || self.columns[1].person_slots[0].is_none() || self.columns[1].person_slots[1].is_none()
            || self.columns[2].person_slots[0].is_none() || self.columns[2].person_slots[1].is_none();
        proof {
            if r {
                if self.columns[0].person_slots[0] is None {
                    assert(self.columns[0].person_slots[0] is None);
                } else if self.columns[0].person_slots[1] is None {
                    assert(self.columns[0].person_slots[1] is None);
                } else if self.columns[1].person_slots[0] is None {
                    assert(self.columns[1].person_slots[0] is None);
                } else if self.columns[1].person_slots[1] is None {
                    assert(self.columns[1].person_slots[1] is None);
                } else if self.columns[2].person_slots[0] is None {
                    assert(self.columns[2].person_slots[0] is None);
                } else {
                    assert(self.columns[2].person_slots[1] is None);
                }
            }
        }
        r
    }
}

/// The event queue after moving every event back one slot where the slot behind it is free
/// (slot 1 is moved before slot 0).
pub open spec fn events_moved_back(e: Seq<Option<EventType>>) -> Seq<Option<EventType>> {
    let e1 = if e[1] is Some && e[2] is None {
        seq![e[0], None, e[1]]
    } else {
        e
    };
    if e1[0] is Some && e1[1] is None {
        seq![None, e1[0], e1[2]]
    } else {
        e1
    }
}

impl PlayerState {
    /// Returns the person slot at the given location as mutable.
    pub fn person_slot_mut(&mut self, loc: PlayLocation) -> (r: &mut Option<Person>)
        ensures
            ({
                let c = loc.spec_column().index() as int;
                let row = loc.spec_row().index() as int;
                &&& *r == old(self).columns[c].person_slots[row]
                &&& final(self).columns[c].person_slots[row] == *final(r)
                &&& final(self).columns[c].person_slots[1 - row] == old(self).columns[c].person_slots[1 - row]
                &&& final(self).columns[c].camp == old(self).columns[c].camp
                &&& forall|k: int| 0 <= k < 3 && k != c ==> #[trigger] final(self).columns[k] == old(self).columns[k]
            }),
            loc.spec_column().index() < 3,
            loc.spec_row().index() < 2,
            final(self).hand == old(self).hand,
            final(self).has_water_silo == old(self).has_water_silo,
            final(self).events == old(self).events,
    {
        let c = loc.column().as_usize();
        let row = loc.row().as_usize();
        &mut self.columns[c].person_slots[row]
    }

    /// Returns whether this player can play an event that resolves in the given number of
    /// turns.
    pub fn can_play_event(&self, resolve_turns: u8) -> (r: bool)
        requires
            resolve_turns <= 4,
        ensures
            r == self.spec_can_play_event(resolve_turns),
    {
        if resolve_turns == 0 {
            // immediately-resolving events are always allowed
            true
        } else {
            // other events can only be played if there is a free event slot on or after their
            // initial slot
            let initial_slot = (resolve_turns - 1) as usize;
            let mut i = initial_slot;
            while i < 3
                invariant
                    initial_slot <= i,
                    i <= 3 || i == initial_slot,
                    initial_slot == resolve_turns - 1,
                    forall|j: int| initial_slot <= j < i && j < 3 ==> #[trigger] self.events[j] is Some,
                decreases 3 - i,
            {
                if self.events[i].is_none() {
                    assert(self.events[i as int] is None);
                    return true;
                }
                i += 1;
            }
            false
        }
    }

    /// Returns whether this player can use the raid effect to play or advance their Raiders
    /// event.
    pub fn can_raid(&self) -> (r: bool)
        ensures
            r == self.spec_can_raid(),
    {
        // search for the Raiders event in the event queue
        if self.events[0] == Some(EventType::Raiders) {
            // it's the first event, so the raid effect would resolve it
            true
        } else if self.events[1] == Some(EventType::Raiders) {
            // the raid effect can only advance it if there is not an event directly in front
            self.events[0].is_none()
        } else if self.events[2] == Some(EventType::Raiders) {
            self.events[1].is_none()
        } else {
            // the Raiders event was not found in the event queue; the raid effect can only be
            // used if there is a free event slot for it
            self.can_play_event(EventType::Raiders.resolve_turns())
        }
    }

    /// Returns whether this player has at least one event in their queue.
    pub fn has_event(&self) -> (r: bool)
        ensures
            r == self.spec_has_event(),
    {
        let r = self.events[0].is_some() || self.events[1].is_some() || self.events[2].is_some();
        proof {
            if self.events[0] is Some {
                assert(self.events[0] is Some);
            }
            if self.events[1] is Some {
                assert(self.events[1] is Some);
            }
            if self.events[2] is Some {
                assert(self.events[2] is Some);
            }
        }
        r
    }

    /// Moves all events in the player's queue back one slot (if possible for each event).
    pub fn move_events_back(&mut self)
        ensures
            final(self).events@ == events_moved_back(old(self).events@),
            final(self).hand == old(self).hand,
            final(self).has_water_silo == old(self).has_water_silo,
            final(self).columns == old(self).columns,
    {
        if self.events[1].is_some() && self.events[2].is_none() {
            self.events[2] = self.events[1].take();
        }
        if self.events[0].is_some() && self.events[1].is_none() {
            self.events[1] = self.events[0].take();
        }
        assert(self.events@ =~= events_moved_back(old(self).events@));
    }

    /// Whether every camp is destroyed.
    pub open spec fn spec_all_camps_destroyed(self) -> bool {
        &&& self.columns[0].camp.status == CampStatus::Destroyed
        &&& self.columns[1].camp.status == CampStatus::Destroyed
        &&& self.columns[2].camp.status == CampStatus::Destroyed
    }

    /// Damages or destroys the camp in the given column.
    /// If `destroy` is true, the camp is always destroyed; otherwise, it is damaged.
    /// Returns true if this player has no camps remaining.
    pub fn damage_camp_at(&mut self, column_index: ColumnIndex, destroy: bool) -> (r: bool)
        requires
            old(self).columns[column_index.index() as int].camp.status != CampStatus::Destroyed,
        ensures
            ({
                let c = column_index.index() as int;
                &&& final(self).columns[c].camp == (Camp {
                    status: damaged_camp_status(old(self).columns[c].camp.status, destroy),
                    ..old(self).columns[c].camp
                })
                &&& final(self).columns[c].person_slots == old(self).columns[c].person_slots
                &&& forall|k: int| 0 <= k < 3 && k != c ==> #[trigger] final(self).columns[k] == old(self).columns[k]
            }),
            final(self).hand == old(self).hand,
            final(self).has_water_silo == old(self).has_water_silo,
            final(self).events == old(self).events,
            r == final(self).spec_all_camps_destroyed(),
    {
        let c = column_index.as_usize();
        self.columns[c].camp.damage(destroy);
        self.columns[0].camp.is_destroyed() && self.columns[1].camp.is_destroyed()
            && self.columns[2].camp.is_destroyed()
    }

    /// Whether the card at a location within the board can be restored.
    pub open spec fn spec_is_restorable_at(self, c: int, row: int) -> bool {
        if row == 0 {
            self.columns[c].camp.status == CampStatus::Damaged
        } else {
            self.columns[c].person_slots[row - 1] matches Some(p) && p.spec_is_injured()
        }
    }

    /// Restores the card at the given location.
    pub fn restore_card_at(&mut self, loc: PlayerCardLocation)
        requires
            old(self).spec_is_restorable_at(
                loc.spec_column().index() as int,
                loc.spec_row().index() as int,
            ),
        ensures
            ({
                let c = loc.spec_column().index() as int;
                let row = loc.spec_row().index() as int;
                let col = old(self).columns[c];
                &&& forall|k: int| 0 <= k < 3 && k != c ==> #[trigger] final(self).columns[k] == old(self).columns[k]
                &&& if row == 0 {
                    &&& final(self).columns[c].camp == (Camp { status: CampStatus::Undamaged, ..col.camp })
                    &&& final(self).columns[c].person_slots == col.person_slots
                } else {
                    &&& final(self).columns[c].camp == col.camp
                    &&& final(self).columns[c].person_slots[row - 1] == Some(col.person_slots[row - 1]->Some_0.spec_restored())
                    &&& final(self).columns[c].person_slots[2 - row] == col.person_slots[2 - row]
                }
            }),
            final(self).hand == old(self).hand,
            final(self).has_water_silo == old(self).has_water_silo,
            final(self).events == old(self).events,
    {
        let c = loc.column().as_usize();
        let ghost col = self.columns[c as int];
        match loc.row().to_person_index() {
            Ok(person_row_index) => {
                let r = person_row_index.as_usize();
                match &mut self.columns[c].person_slots[r] {
                    Some(p) => p.restore(),
                    None => {},
                }
            },
            Err(()) => self.columns[c].camp.restore(),
        }
    }
}

impl PlayerState {
    /// Returns the person at the given location as mutable, if there is one.
    pub fn person_mut_slot(&mut self, loc: PlayLocation) -> (r: Option<&mut Person>)
        ensures
            ({
                let c = loc.spec_column().index() as int;
                let row = loc.spec_row().index() as int;
                &&& match old(self).columns[c].person_slots[row] {
                    None => r is None && final(self).columns[c].person_slots[row] is None,
                    Some(p) => r is Some && *r->Some_0 == p && final(self).columns[c].person_slots[row]
                        == Some(*final(r->Some_0)),
                }
                &&& final(self).columns[c].person_slots[1 - row] == old(self).columns[c].person_slots[1 - row]
                &&& final(self).columns[c].camp == old(self).columns[c].camp
                &&& forall|k: int| 0 <= k < 3 && k != c ==> #[trigger] final(self).columns[k] == old(self).columns[k]
            }),
            final(self).hand == old(self).hand,
            final(self).has_water_silo == old(self).has_water_silo,
            final(self).events == old(self).events,
    {
        let c = loc.column().as_usize();
        let row = loc.row().as_usize();
        self.columns[c].person_slots[row].as_mut()
    }

    /// Removes and returns the person at the given location, shifting any person in front of it
    /// back.
    pub fn remove_person_at(&mut self, loc: PlayLocation) -> (r: Person)
        requires
            old(self).columns[loc.spec_column().index() as int].person_slots[loc.spec_row().index() as int] is Some,
        ensures
            ({
                let c = loc.spec_column().index() as int;
                let row = loc.spec_row().index() as int;
                let col = old(self).columns[c];
                &&& Some(r) == col.person_slots[row]
                &&& final(self).columns[c].camp == col.camp
                &&& if row == 0 {
                    &&& final(self).columns[c].person_slots[0] == col.person_slots[1]
                    &&& final(self).columns[c].person_slots[1] is None
                } else {
                    &&& final(self).columns[c].person_slots[0] == col.person_slots[0]
                    &&& final(self).columns[c].person_slots[1] is None
                }
                &&& forall|k: int| 0 <= k < 3 && k != c ==> #[trigger] final(self).columns[k] == old(self).columns[k]
            }),
            final(self).hand == old(self).hand,
            final(self).has_water_silo == old(self).has_water_silo,
            final(self).events == old(self).events,
    {
        let c = loc.column().as_usize();
        let row = loc.row().as_usize();
        // remove the person from its slot
        let person = self.columns[c].person_slots[row].take().unwrap();
        // shift any person in front of it back
        if row == 0 {
            self.columns[c].person_slots[0] = self.columns[c].person_slots[1].take();
        }
        person
    }

    /// Returns whether this player has an empty person slot in a column where the camp's
    /// destruction is `camp_destroyed`. This is used to determine valid locations to play the
    /// person "Holdout" for different costs.
    pub fn has_empty_holdout_slot(&self, camp_destroyed: bool) -> (r: bool)
        ensures
            r == self.spec_has_empty_holdout_slot(camp_destroyed),
    {
        let mut c: usize = 0;
        while c < 3
            invariant
                c <= 3,
                forall|k: int, row: int|
                    0 <= k < c && 0 <= row < 2 && (self.columns[k].camp.status == CampStatus::Destroyed)
                        == camp_destroyed ==> #[trigger] self.columns[k].person_slots[row] is Some,
            decreases 3 - c,
        {
            if self.columns[c].camp.is_destroyed() == camp_destroyed {
                if self.columns[c].person_slots[0].is_none() {
                    assert(self.columns[c as int].person_slots[0] is None);
                    return true;
                }
                if self.columns[c].person_slots[1].is_none() {
                    assert(self.columns[c as int].person_slots[1] is None);
                    return true;
                }
            }
            c += 1;
        }
        false
    }

    /// Returns the people on this player's board, column by column, back to front.
    pub fn people(&self) -> (r: Vec<Person>)
        ensures
            r@ == self.spec_people(),
    {
        let mut r = self.columns[0].people();
        let mut r1 = self.columns[1].people();
        let mut r2 = self.columns[2].people();
        r.append(&mut r1);
        r.append(&mut r2);
        r
    }

    /// Returns whether this player has a punk on their board.
    pub fn has_punk(&self) -> (r: bool)
        ensures
            r == exists|i: int| 0 <= i < self.spec_people().len() && #[trigger] self.spec_people()[i] is Punk,
    {
        let people = self.people();
        let mut i: usize = 0;
        while i < people.len()
            invariant
                i <= people@.len(),
                people@ == self.spec_people(),
                forall|j: int| 0 <= j < i ==> !(#[trigger] people@[j] is Punk),
            decreases people@.len() - i,
        {
            if let Person::Punk { .. } = people[i] {
                return true;
            }
            i += 1;
        }
        false
    }

    /// Returns whether this player has a person of the given special type that is uninjured
    /// (i.e. whose trait is active).
    pub fn has_special_person(&self, special_type: SpecialType) -> (r: bool)
        ensures
            r == self.spec_has_special_person(special_type),
    {
        let mut c: usize = 0;
        while c < 3
            invariant
                c <= 3,
                forall|k: int, r: int| 0 <= k < c && 0 <= r < 2 ==> !slot_is_active_special(#[trigger] self.columns[k].person_slots[r], special_type),
            decreases 3 - c,
        {
            let mut r: usize = 0;
            while r < 2
                invariant
                    c < 3,
                    r <= 2,
                    forall|k: int, q: int| 0 <= k < c && 0 <= q < 2 ==> !slot_is_active_special(#[trigger] self.columns[k].person_slots[q], special_type),
                    forall|q: int| 0 <= q < r ==> !slot_is_active_special(#[trigger] self.columns[c as int].person_slots[q], special_type),
                decreases 2 - r,
            {
                if let Some(Person::NonPunk { person_type, status, .. }) = self.columns[c].person_slots[r] {
                    if person_type.special_type() == special_type && status != NonPunkStatus::Injured {
                        assert(slot_is_active_special(self.columns[c as int].person_slots[r as int], special_type));
                        return true;
                    }
                }
                r += 1;
            }
            c += 1;
        }
        false
    }

    /// Returns whether this player has any damaged cards that they can restore.
    pub fn has_restorable_card(&self) -> (r: bool)
        ensures
            r == (self.spec_restorable_card_locs().len() > 0),
    {
        self.columns[0].has_restorable_card() || self.columns[1].has_restorable_card()
            || self.columns[2].has_restorable_card()
    }

    /// Returns the locations of any damaged cards that this player can restore.
    pub fn restorable_card_locs(&self) -> (r: Vec<PlayerCardLocation>)
        ensures
            loc_pairs(r@) == self.spec_restorable_card_locs(),
    {
        let mut r: Vec<PlayerCardLocation> = Vec::new();
        push_column_locs(&mut r, ColumnIndex::new(0), self.columns[0].restorable_card_rows());
        push_column_locs(&mut r, ColumnIndex::new(1), self.columns[1].restorable_card_rows());
        push_column_locs(&mut r, ColumnIndex::new(2), self.columns[2].restorable_card_rows());
        assert(loc_pairs(Seq::<PlayerCardLocation>::empty()) =~= Seq::<(nat, nat)>::empty());
        assert(loc_pairs(r@) =~= self.spec_restorable_card_locs());
        r
    }

    /// Returns the locations of this player's cards (people and non-destroyed camps).
    pub fn card_locs(&self) -> (r: Vec<PlayerCardLocation>)
        ensures
            loc_pairs(r@) == self.spec_card_locs(),
    {
        let mut r: Vec<PlayerCardLocation> = Vec::new();
        push_column_locs(&mut r, ColumnIndex::new(0), self.columns[0].card_rows());
        push_column_locs(&mut r, ColumnIndex::new(1), self.columns[1].card_rows());
        push_column_locs(&mut r, ColumnIndex::new(2), self.columns[2].card_rows());
        assert(loc_pairs(Seq::<PlayerCardLocation>::empty()) =~= Seq::<(nat, nat)>::empty());
        assert(loc_pairs(r@) =~= self.spec_card_locs());
        r
    }

    /// Returns the locations of this player's unprotected cards.
    pub fn unprotected_card_locs(&self) -> (r: Vec<PlayerCardLocation>)
        ensures
            loc_pairs(r@) == self.spec_unprotected_card_locs(),
    {
        let mut r: Vec<PlayerCardLocation> = Vec::new();
        let mut c: usize = 0;
        while c < 3
            invariant
                c <= 3,
                loc_pairs(r@) == self.unprotected_card_locs_upto(c as nat),
            decreases 3 - c,
        {
            let ci = ColumnIndex::new(c);
            let rows: Vec<CardRowIndex> = match self.columns[c].frontmost_card_row() {
                Some(row) => vec![row],
                None => Vec::new(),
            };
            assert(rows@.map_values(|x: CardRowIndex| x.index()) =~= opt_seq(
                self.columns[c as int].spec_frontmost_card_row(),
            ));
            push_column_locs(&mut r, ci, rows);
            c += 1;
        }
        proof {
            reveal_with_fuel(PlayerState::unprotected_card_locs_upto, 4);
        }
        assert(self.unprotected_card_locs_upto(3) =~= self.spec_unprotected_card_locs());
        r
    }

    /// The unprotected cards of the first `k` columns.
    pub open spec fn unprotected_card_locs_upto(self, k: nat) -> Seq<(nat, nat)>
        decreases k,
    {
        if k == 0 {
            Seq::empty()
        } else {
            self.unprotected_card_locs_upto((k - 1) as nat) + in_column(
                (k - 1) as nat,
                opt_seq(self.columns[k - 1].spec_frontmost_card_row()),
            )
        }
    }

    /// The unprotected people of the first `k` columns.
    pub open spec fn unprotected_person_locs_upto(self, k: nat) -> Seq<(nat, nat)>
        decreases k,
    {
        if k == 0 {
            Seq::empty()
        } else {
            self.unprotected_person_locs_upto((k - 1) as nat) + in_column(
                (k - 1) as nat,
                opt_seq(self.columns[k - 1].spec_frontmost_card_row_of_person()),
            )
        }
    }

    /// Returns the card locations of this player's unprotected people.
    pub fn unprotected_person_locs(&self) -> (r: Vec<PlayerCardLocation>)
        ensures
            loc_pairs(r@) == self.spec_unprotected_person_locs(),
    {
        let mut r: Vec<PlayerCardLocation> = Vec::new();
        let mut c: usize = 0;
        while c < 3
            invariant
                c <= 3,
                loc_pairs(r@) == self.unprotected_person_locs_upto(c as nat),
            decreases 3 - c,
        {
            let ci = ColumnIndex::new(c);
            let rows: Vec<CardRowIndex> = match self.columns[c].frontmost_person_row() {
                Some(row) => vec![row.to_card_row()],
                None => Vec::new(),
            };
            assert(rows@.map_values(|x: CardRowIndex| x.index()) =~= opt_seq(
                self.columns[c as int].spec_frontmost_card_row_of_person(),
            ));
            push_column_locs(&mut r, ci, rows);
            c += 1;
        }
        proof {
            reveal_with_fuel(PlayerState::unprotected_person_locs_upto, 4);
        }
        assert(self.unprotected_person_locs_upto(3) =~= self.spec_unprotected_person_locs());
        r
    }

    /// Returns the locations of this player's people.
    pub fn person_locs(&self) -> (r: Vec<PlayLocation>)
        ensures
            play_loc_pairs(r@) == self.spec_person_locs(),
    {
        let e = self.enumerate_people();
        let mut r: Vec<PlayLocation> = Vec::new();
        let mut i: usize = 0;
        while i < e.len()
            invariant
                i <= e@.len(),
                play_loc_pairs(r@) == play_loc_pairs(e@.map_values(|x: (PlayLocation, Person)| x.0)).subrange(0, i as int),
            decreases e@.len() - i,
        {
            let ghost before = r@;
            r.push(e[i].0);
            assert(play_loc_pairs(r@) =~= play_loc_pairs(before).push((e@[i as int].0.spec_column().index(), e@[i as int].0.spec_row().index())));
            assert(play_loc_pairs(e@.map_values(|x: (PlayLocation, Person)| x.0)).subrange(0, i + 1) =~= play_loc_pairs(e@.map_values(|x: (PlayLocation, Person)| x.0)).subrange(0, i as int).push((e@[i as int].0.spec_column().index(), e@[i as int].0.spec_row().index())));
            i += 1;
        }
        assert(play_loc_pairs(e@.map_values(|x: (PlayLocation, Person)| x.0)).subrange(0, i as int)
            =~= play_loc_pairs(e@.map_values(|x: (PlayLocation, Person)| x.0)));
        r
    }

    /// Returns the people of this player's board with their locations, column by column, back to
    /// front.
    pub fn enumerate_people(&self) -> (r: Vec<(PlayLocation, Person)>)
        ensures
            r@.map_values(|x: (PlayLocation, Person)| x.1) == self.spec_people(),
            play_loc_pairs(r@.map_values(|x: (PlayLocation, Person)| x.0)) == self.spec_person_locs(),
    {
        let mut r: Vec<(PlayLocation, Person)> = Vec::new();
        let mut c: usize = 0;
        while c < 3
            invariant
                c <= 3,
                r@.map_values(|x: (PlayLocation, Person)| x.1) == self.people_upto(c as nat),
                play_loc_pairs(r@.map_values(|x: (PlayLocation, Person)| x.0)) == self.person_locs_upto(c as nat),
            decreases 3 - c,
        {
            let ci = ColumnIndex::new(c);
            let ghost before = r@;
            if let Some(p) = self.columns[c].person_slots[0] {
                r.push((PlayLocation::new(ci, PersonRowIndex::new(0)), p));
            }
            let ghost mid = r@;
            if let Some(p) = self.columns[c].person_slots[1] {
                r.push((PlayLocation::new(ci, PersonRowIndex::new(1)), p));
            }
            assert(r@.map_values(|x: (PlayLocation, Person)| x.1) =~= before.map_values(
                |x: (PlayLocation, Person)| x.1,
            ) + self.columns[c as int].spec_people());
            assert(play_loc_pairs(r@.map_values(|x: (PlayLocation, Person)| x.0)) =~= play_loc_pairs(
                before.map_values(|x: (PlayLocation, Person)| x.0),
            ) + in_column(c as nat, self.columns[c as int].spec_person_rows()));
            c += 1;
        }
        proof {
            reveal_with_fuel(PlayerState::people_upto, 4);
            reveal_with_fuel(PlayerState::person_locs_upto, 4);
        }
        assert(self.people_upto(3) =~= self.spec_people());
        assert(self.person_locs_upto(3) =~= self.spec_person_locs());
        r
    }

    /// The people of the first `k` columns.
    pub open spec fn people_upto(self, k: nat) -> Seq<Person>
        decreases k,
    {
        if k == 0 {
            Seq::empty()
        } else {
            self.people_upto((k - 1) as nat) + self.columns[k - 1].spec_people()
        }
    }

    /// The locations of the people of the first `k` columns.
    pub open spec fn person_locs_upto(self, k: nat) -> Seq<(nat, nat)>
        decreases k,
    {
        if k == 0 {
            Seq::empty()
        } else {
            self.person_locs_upto((k - 1) as nat) + in_column(
                (k - 1) as nat,
                self.columns[k - 1].spec_person_rows(),
            )
        }
    }

    /// Returns the nth person (and its location) on this player's board, in the order of
    /// `enumerate_people`.
    pub fn nth_person(&self, n: usize) -> (r: (PlayLocation, Person))
        requires
            n < self.spec_people().len(),
        ensures
            r.1 == self.spec_people()[n as int],
            (r.0.spec_column().index(), r.0.spec_row().index()) == self.spec_person_locs()[n as int],
    {
        let e = self.enumerate_people();
        assert(e@.map_values(|x: (PlayLocation, Person)| x.1)[n as int] == e@[n as int].1);
        assert(play_loc_pairs(e@.map_values(|x: (PlayLocation, Person)| x.0))[n as int] == (
        e@[n as int].0.spec_column().index(), e@[n as int].0.spec_row().index()));
        e[n]
    }

    /// Returns the columns of this player's board with their indices.
    pub fn enumerate_columns(&self) -> (r: Vec<(ColumnIndex, CardColumn)>)
        ensures
            r@.len() == 3,
            forall|i: int| 0 <= i < 3 ==> (#[trigger] r@[i]).0.index() == i && r@[i].1 == self.columns[i],
    {
        vec![
            (ColumnIndex::new(0), self.columns[0]),
            (ColumnIndex::new(1), self.columns[1]),
            (ColumnIndex::new(2), self.columns[2]),
        ]
    }

    /// Returns the camps of this player's board (both destroyed and non-destroyed) with their
    /// locations.
    pub fn enumerate_camps(&self) -> (r: Vec<(PlayerCardLocation, Camp)>)
        ensures
            r@.len() == 3,
            forall|i: int|
                0 <= i < 3 ==> (#[trigger] r@[i]).0.spec_column().index() == i && r@[i].0.spec_row().index()
                    == 0 && r@[i].1 == self.columns[i].camp,
    {
        vec![
            (PlayerCardLocation::new(ColumnIndex::new(0), CardRowIndex::camp()), self.columns[0].camp),
            (PlayerCardLocation::new(ColumnIndex::new(1), CardRowIndex::camp()), self.columns[1].camp),
            (PlayerCardLocation::new(ColumnIndex::new(2), CardRowIndex::camp()), self.columns[2].camp),
        ]
    }
}

impl Person {
    /// The person after `restore`.
    pub open spec fn spec_restored(self) -> Person {
        match self {
            Person::NonPunk { person_type, times_used, .. } => Person::NonPunk {
                person_type,
                status: NonPunkStatus::NotReady,
                times_used,
            },
            p => p,
        }
    }
}

impl CardColumn {
    /// The column with the person slot at `row` replaced.
    pub open spec fn with_slot(self, row: int, p: Option<Person>) -> CardColumn {
        CardColumn {
            person_slots: if row == 0 {
                [p, self.person_slots[1]]
            } else {
                [self.person_slots[0], p]
            },
            ..self
        }
    }

    /// The column that `new` creates.
    pub open spec fn new_spec(camp_type: CampType) -> CardColumn {
        CardColumn {
            camp: Camp { camp_type, status: CampStatus::Undamaged, is_ready: true, times_used: 0 },
            person_slots: [None, None],
        }
    }

    /// The card row of the frontmost person, if any.
    pub open spec fn spec_frontmost_card_row_of_person(self) -> Option<nat> {
        match self.spec_frontmost_person_row() {
            Some(r) => Some(r + 1),
            None => None,
        }
    }
}

} // verus!

verus! {

impl PlayerState {
    /// Whether a card (a person, or a camp that is not destroyed) is at the given column and
    /// card row of the board.
    pub open spec fn spec_has_card(self, c: int, row: int) -> bool {
        &&& 0 <= c < 3
        &&& 0 <= row < 3
        &&& if row == 0 {
            self.columns[c].camp.status != CampStatus::Destroyed
        } else {
            self.columns[c].person_slots[row - 1] is Some
        }
    }

    /// The card rows (1 or 2) of the injured people of a column.
    pub open spec fn spec_injured_person_locs(self) -> Seq<(nat, nat)> {
        in_column(0, self.columns[0].spec_injured_rows()) + in_column(
            1,
            self.columns[1].spec_injured_rows(),
        ) + in_column(2, self.columns[2].spec_injured_rows())
    }

    /// Whether some person on the board is injured.
    pub open spec fn spec_has_injured_person(self) -> bool {
        exists|i: int| 0 <= i < self.spec_people().len() && #[trigger] self.spec_people()[i].spec_is_injured()
    }
}

impl CardColumn {
    /// The card rows of the injured people of the column, back to front.
    pub open spec fn spec_injured_rows(self) -> Seq<nat> {
        if_seq(self.person_slots[0] matches Some(p) && p.spec_is_injured(), 1nat) + if_seq(
            self.person_slots[1] matches Some(p) && p.spec_is_injured(),
            2nat,
        )
    }
}

/// The rows of a column that pass three tests, in increasing order: each is one of the rows that
/// passed, and no row comes twice.
pub proof fn lemma_if_seq3(b0: bool, b1: bool, b2: bool, x0: nat, x1: nat, x2: nat)
    requires
        x0 < x1 < x2,
    ensures
        ({
            let s = if_seq(b0, x0) + if_seq(b1, x1) + if_seq(b2, x2);
            &&& forall|k: int|
                0 <= k < s.len() ==> (#[trigger] s[k] == x0 && b0) || (s[k] == x1 && b1) || (s[k]
                    == x2 && b2)
            &&& forall|a: int, b: int| 0 <= a < b < s.len() ==> s[a] < s[b]
            &&& s.len() == (if b0 { 1nat } else { 0 }) + (if b1 { 1nat } else { 0 }) + (if b2 { 1nat } else { 0 })
        }),
{
    let s = if_seq(b0, x0) + if_seq(b1, x1) + if_seq(b2, x2);
    if b0 {
        if b1 {
            if b2 {
                assert(s =~= seq![x0, x1, x2]);
            } else {
                assert(s =~= seq![x0, x1]);
            }
        } else if b2 {
            assert(s =~= seq![x0, x2]);
        } else {
            assert(s =~= seq![x0]);
        }
    } else if b1 {
        if b2 {
            assert(s =~= seq![x1, x2]);
        } else {
            assert(s =~= seq![x1]);
        }
    } else if b2 {
        assert(s =~= seq![x2]);
    } else {
        assert(s =~= Seq::<nat>::empty());
    }
}

/// A sequence of at most one row is sorted.
pub proof fn lemma_opt_seq_rows(o: Option<nat>)
    ensures
        forall|k: int| 0 <= k < opt_seq(o).len() ==> o == Some(#[trigger] opt_seq(o)[k]),
        forall|a: int, b: int| 0 <= a < b < opt_seq(o).len() ==> opt_seq(o)[a] < opt_seq(o)[b],
        opt_seq(o).len() == (if o is Some { 1nat } else { 0 }),
{
}

/// Two rows that pass two tests, in increasing order.
pub proof fn lemma_if_seq2(b0: bool, b1: bool, x0: nat, x1: nat)
    requires
        x0 < x1,
    ensures
        ({
            let s = if_seq(b0, x0) + if_seq(b1, x1);
            &&& forall|k: int| 0 <= k < s.len() ==> (#[trigger] s[k] == x0 && b0) || (s[k] == x1 && b1)
            &&& forall|a: int, b: int| 0 <= a < b < s.len() ==> s[a] < s[b]
            &&& s.len() == (if b0 { 1nat } else { 0 }) + (if b1 { 1nat } else { 0 })
        }),
{
    let s = if_seq(b0, x0) + if_seq(b1, x1);
    if b0 {
        if b1 {
            assert(s =~= seq![x0, x1]);
        } else {
            assert(s =~= seq![x0]);
        }
    } else if b1 {
        assert(s =~= seq![x1]);
    } else {
        assert(s =~= Seq::<nat>::empty());
    }
}

/// A location is among the locations of three columns' rows exactly when its row is among the
/// rows of its column.
pub proof fn lemma_in_columns_contains(r0: Seq<nat>, r1: Seq<nat>, r2: Seq<nat>, c: nat, r: nat)
    ensures
        (in_column(0, r0) + in_column(1, r1) + in_column(2, r2)).contains((c, r)) <==> (c == 0 && r0.contains(r))
            || (c == 1 && r1.contains(r)) || (c == 2 && r2.contains(r)),
{
    let s = in_column(0, r0) + in_column(1, r1) + in_column(2, r2);
    let n0 = r0.len() as int;
    let n1 = r1.len() as int;
    if s.contains((c, r)) {
        let i = choose|i: int| 0 <= i < s.len() && s[i] == (c, r);
        if i < n0 {
            assert(s[i] == (0nat, r0[i]));
        } else if i < n0 + n1 {
            assert(s[i] == (1nat, r1[i - n0]));
        } else {
            assert(s[i] == (2nat, r2[i - n0 - n1]));
        }
    }
    if c == 0 && r0.contains(r) {
        let k = choose|k: int| 0 <= k < r0.len() && r0[k] == r;
        assert(s[k] == (0nat, r0[k]));
    }
    if c == 1 && r1.contains(r) {
        let k = choose|k: int| 0 <= k < r1.len() && r1[k] == r;
        assert(s[n0 + k] == (1nat, r1[k]));
    }
    if c == 2 && r2.contains(r) {
        let k = choose|k: int| 0 <= k < r2.len() && r2[k] == r;
        assert(s[n0 + n1 + k] == (2nat, r2[k]));
    }
}

/// Readying a person, as the end of a turn does, keeps an injury: an injured person stays
/// injured (only a restore heals it), and anyone else becomes ready. The card, and how often it
/// was used this turn, stay as they were.
pub proof fn lemma_readied_keeps_injuries(q: Person)
    ensures
        q.spec_readied().spec_is_injured() == q.spec_is_injured(),
        !q.spec_is_injured() ==> q.spec_readied().spec_is_ready(),
        q.spec_readied() is Punk == q is Punk,
        q matches Person::NonPunk { person_type, times_used, .. } ==> (q.spec_readied() matches Person::NonPunk {
            person_type: t,
            times_used: u,
            ..
        } && t == person_type && u == times_used),
{
}

/// Exhausting a person, as using it does, keeps an injury: an injured person stays injured,
/// and no one is left ready. The card, and how often it was used this turn, stay as they were.
pub proof fn lemma_unreadied_keeps_injuries(q: Person)
    ensures
        q.spec_unreadied().spec_is_injured() == q.spec_is_injured(),
        !q.spec_unreadied().spec_is_ready(),
        q.spec_unreadied() is Punk == q is Punk,
        q matches Person::NonPunk { person_type, times_used, .. } ==> (q.spec_unreadied() matches Person::NonPunk {
            person_type: t,
            times_used: u,
            ..
        } && t == person_type && u == times_used),
{
}

/// Damaging a camp: an undamaged camp becomes damaged, or destroyed outright when the damage
/// destroys; a damaged camp is destroyed; a destroyed one stays destroyed.
pub proof fn lemma_damaged_camp_status(status: CampStatus, destroy: bool)
    ensures
        status == CampStatus::Undamaged && !destroy ==> damaged_camp_status(status, destroy) == CampStatus::Damaged,
        status != CampStatus::Undamaged || destroy ==> damaged_camp_status(status, destroy) == CampStatus::Destroyed,
{
}

/// The locations of three columns' rows, column by column: each element passes a test that the
/// rows of its column pass, and when the rows of each column are increasing, no location comes
/// twice.
pub proof fn lemma_in_columns(r0: Seq<nat>, r1: Seq<nat>, r2: Seq<nat>, p: spec_fn(nat, nat) -> bool)
    requires
        forall|k: int| 0 <= k < r0.len() ==> p(0, #[trigger] r0[k]),
        forall|k: int| 0 <= k < r1.len() ==> p(1, #[trigger] r1[k]),
        forall|k: int| 0 <= k < r2.len() ==> p(2, #[trigger] r2[k]),
    ensures
        ({
            let s = in_column(0, r0) + in_column(1, r1) + in_column(2, r2);
            &&& s.len() == r0.len() + r1.len() + r2.len()
            &&& forall|i: int| 0 <= i < s.len() ==> p(#[trigger] s[i].0, s[i].1)
            &&& (forall|a: int, b: int| 0 <= a < b < r0.len() ==> r0[a] < r0[b]) && (forall|
                a: int,
                b: int,
            | 0 <= a < b < r1.len() ==> r1[a] < r1[b]) && (forall|a: int, b: int|
                0 <= a < b < r2.len() ==> r2[a] < r2[b]) ==> s.no_duplicates()
        }),
{
    let s = in_column(0, r0) + in_column(1, r1) + in_column(2, r2);
    let n0 = r0.len() as int;
    let n1 = r1.len() as int;
    assert forall|i: int| 0 <= i < s.len() implies p(#[trigger] s[i].0, s[i].1) by {
        if i < n0 {
            assert(s[i] == (0nat, r0[i]));
        } else if i < n0 + n1 {
            assert(s[i] == (1nat, r1[i - n0]));
        } else {
            assert(s[i] == (2nat, r2[i - n0 - n1]));
        }
    }
    if (forall|a: int, b: int| 0 <= a < b < r0.len() ==> r0[a] < r0[b]) && (forall|
        a: int,
        b: int,
    | 0 <= a < b < r1.len() ==> r1[a] < r1[b]) && (forall|a: int, b: int|
        0 <= a < b < r2.len() ==> r2[a] < r2[b]) {
        assert forall|a: int, b: int| 0 <= a < s.len() && 0 <= b < s.len() && a != b implies s[a]
            != s[b] by {
            let (x, y) = if a < b { (a, b) } else { (b, a) };
            if y < n0 {
                assert(r0[x] < r0[y]);
            } else if x < n0 {
                assert(s[x].0 == 0);
                assert(s[y].0 != 0);
            } else if y < n0 + n1 {
                assert(r1[x - n0] < r1[y - n0]);
            } else if x < n0 + n1 {
                assert(s[x].0 == 1);
                assert(s[y].0 == 2);
            } else {
                assert(r2[x - n0 - n1] < r2[y - n0 - n1]);
            }
        }
    }
}

} // verus!

verus! {

impl PlayerState {
    /// The unprotected cards, which damage can target, are exactly the cards with nothing in
    /// front of them: a card at card row `row` of column `c` (row 0 is the camp, rows 1 and 2 the
    /// person slots 0 and 1) is unprotected when no person slot of the column with index `row` or
    /// more is occupied.
    pub proof fn lemma_unprotected_cards_have_nothing_in_front(self)
        ensures
            forall|c: int, row: int|
                0 <= c < 3 && 0 <= row < 3 ==> (#[trigger] self.spec_unprotected_card_locs().contains(
                    (c as nat, row as nat),
                ) <==> (self.spec_has_card(c, row) && forall|s: int|
                    row <= s < 2 ==> self.columns[c].person_slots[s] is None)),
    {
        assert forall|c: int, row: int|
            0 <= c < 3 && 0 <= row < 3 implies (#[trigger] self.spec_unprotected_card_locs().contains(
                (c as nat, row as nat),
            ) <==> (self.spec_has_card(c, row) && forall|s: int|
                row <= s < 2 ==> self.columns[c].person_slots[s] is None)) by {
            lemma_in_columns_contains(
                opt_seq(self.columns[0].spec_frontmost_card_row()),
                opt_seq(self.columns[1].spec_frontmost_card_row()),
                opt_seq(self.columns[2].spec_frontmost_card_row()),
                c as nat,
                row as nat,
            );
            let f = self.columns[c].spec_frontmost_card_row();
            assert(opt_seq(f).contains(row as nat) <==> f == Some(row as nat)) by {
                if f is Some {
                    assert(opt_seq(f)[0] == f->0);
                }
            }
            if self.spec_has_card(c, row) && forall|s: int| row <= s < 2 ==> self.columns[c].person_slots[s] is None {
                if row < 2 {
                    assert(self.columns[c].person_slots[row] is None);
                }
                if row < 1 {
                    assert(self.columns[c].person_slots[1] is None);
                }
            }
        }
    }

    /// The unprotected people are exactly the people with nothing in front of them: the person
    /// at card row `row` (1 or 2) of column `c` when no person slot of the column with index
    /// `row` or more is occupied.
    pub proof fn lemma_unprotected_people_have_nothing_in_front(self)
        ensures
            forall|c: int, row: int|
                0 <= c < 3 && 0 <= row < 3 ==> (#[trigger] self.spec_unprotected_person_locs().contains(
                    (c as nat, row as nat),
                ) <==> (row >= 1 && self.columns[c].person_slots[row - 1] is Some && forall|s: int|
                    row <= s < 2 ==> self.columns[c].person_slots[s] is None)),
    {
        assert forall|c: int, row: int|
            0 <= c < 3 && 0 <= row < 3 implies (#[trigger] self.spec_unprotected_person_locs().contains(
                (c as nat, row as nat),
            ) <==> (row >= 1 && self.columns[c].person_slots[row - 1] is Some && forall|s: int|
                row <= s < 2 ==> self.columns[c].person_slots[s] is None)) by {
            lemma_in_columns_contains(
                opt_seq(self.columns[0].spec_frontmost_card_row_of_person()),
                opt_seq(self.columns[1].spec_frontmost_card_row_of_person()),
                opt_seq(self.columns[2].spec_frontmost_card_row_of_person()),
                c as nat,
                row as nat,
            );
            let f = self.columns[c].spec_frontmost_card_row_of_person();
            assert(opt_seq(f).contains(row as nat) <==> f == Some(row as nat)) by {
                if f is Some {
                    assert(opt_seq(f)[0] == f->0);
                }
            }
            if row >= 1 && self.columns[c].person_slots[row - 1] is Some && forall|s: int|
                row <= s < 2 ==> self.columns[c].person_slots[s] is None {
                if row < 2 {
                    assert(self.columns[c].person_slots[row] is None);
                }
            }
        }
    }

    /// The cards that can be restored are exactly the damaged camps and the injured people.
    pub proof fn lemma_restorable_cards_are_damaged(self)
        ensures
            forall|c: int, row: int|
                0 <= c < 3 && 0 <= row < 3 ==> (#[trigger] self.spec_restorable_card_locs().contains(
                    (c as nat, row as nat),
                ) <==> ((row == 0 && self.columns[c].camp.status == CampStatus::Damaged) || (row >= 1
                    && self.columns[c].person_slots[row - 1] matches Some(Person::NonPunk {
                    status: NonPunkStatus::Injured,
                    ..
                })))),
    {
        assert forall|c: int, row: int|
            0 <= c < 3 && 0 <= row < 3 implies (#[trigger] self.spec_restorable_card_locs().contains(
                (c as nat, row as nat),
            ) <==> ((row == 0 && self.columns[c].camp.status == CampStatus::Damaged) || (row >= 1
                && self.columns[c].person_slots[row - 1] matches Some(Person::NonPunk {
                status: NonPunkStatus::Injured,
                ..
            })))) by {
            lemma_in_columns_contains(
                self.columns[0].spec_restorable_card_rows(),
                self.columns[1].spec_restorable_card_rows(),
                self.columns[2].spec_restorable_card_rows(),
                c as nat,
                row as nat,
            );
            let col = self.columns[c];
            lemma_if_seq3(
                col.camp.status == CampStatus::Damaged,
                col.person_slots[0] matches Some(p) && p.spec_is_injured(),
                col.person_slots[1] matches Some(p) && p.spec_is_injured(),
                0,
                1,
                2,
            );
            let rows = col.spec_restorable_card_rows();
            if rows.contains(row as nat) {
                let k = choose|k: int| 0 <= k < rows.len() && rows[k] == row as nat;
            }
            if (row == 0 && col.camp.status == CampStatus::Damaged) {
                assert(rows[0] == 0);
            }
            if row == 1 && (col.person_slots[0] matches Some(p) && p.spec_is_injured()) {
                if col.camp.status == CampStatus::Damaged {
                    assert(rows[1] == 1);
                } else {
                    assert(rows[0] == 1);
                }
            }
            if row == 2 && (col.person_slots[1] matches Some(p) && p.spec_is_injured()) {
                assert(rows[rows.len() - 1] == 2);
            }
        }
    }

    /// Every location listed by `card_locs` holds a card, and none is listed twice.
    #[verifier::spinoff_prover]
    pub proof fn lemma_card_locs(self)
        ensures
            forall|i: int|
                0 <= i < self.spec_card_locs().len() ==> self.spec_has_card(
                    #[trigger] self.spec_card_locs()[i].0 as int,
                    self.spec_card_locs()[i].1 as int,
                ),
            self.spec_card_locs().no_duplicates(),
    {
        self.columns[0].lemma_card_rows();
        self.columns[1].lemma_card_rows();
        self.columns[2].lemma_card_rows();
        let p = |c: nat, r: nat| self.spec_has_card(c as int, r as int);
        lemma_in_columns(self.columns[0].spec_card_rows(), self.columns[1].spec_card_rows(), self.columns[2].spec_card_rows(), p);
    }

    /// Every location listed by `unprotected_card_locs` holds a card, and none is listed twice.
    pub proof fn lemma_unprotected_card_locs(self)
        ensures
            forall|i: int|
                0 <= i < self.spec_unprotected_card_locs().len() ==> self.spec_has_card(
                    #[trigger] self.spec_unprotected_card_locs()[i].0 as int,
                    self.spec_unprotected_card_locs()[i].1 as int,
                ),
            self.spec_unprotected_card_locs().no_duplicates(),
    {
        lemma_opt_seq_rows(self.columns[0].spec_frontmost_card_row());
        lemma_opt_seq_rows(self.columns[1].spec_frontmost_card_row());
        lemma_opt_seq_rows(self.columns[2].spec_frontmost_card_row());
        lemma_in_columns(
            opt_seq(self.columns[0].spec_frontmost_card_row()),
            opt_seq(self.columns[1].spec_frontmost_card_row()),
            opt_seq(self.columns[2].spec_frontmost_card_row()),
            |c: nat, r: nat| self.spec_has_card(c as int, r as int),
        );
    }

    /// Every location listed by `unprotected_person_locs` holds a person, and none is listed
    /// twice.
    pub proof fn lemma_unprotected_person_locs(self)
        ensures
            forall|i: int|
                0 <= i < self.spec_unprotected_person_locs().len() ==> {
                    let l = #[trigger] self.spec_unprotected_person_locs()[i];
                    &&& self.spec_has_card(l.0 as int, l.1 as int)
                    &&& l.1 >= 1
                },
            self.spec_unprotected_person_locs().no_duplicates(),
            self.spec_unprotected_person_locs().len() > 0 <==> self.spec_people().len() > 0,
    {
        lemma_opt_seq_rows(self.columns[0].spec_frontmost_card_row_of_person());
        lemma_opt_seq_rows(self.columns[1].spec_frontmost_card_row_of_person());
        lemma_opt_seq_rows(self.columns[2].spec_frontmost_card_row_of_person());
        lemma_in_columns(
            opt_seq(self.columns[0].spec_frontmost_card_row_of_person()),
            opt_seq(self.columns[1].spec_frontmost_card_row_of_person()),
            opt_seq(self.columns[2].spec_frontmost_card_row_of_person()),
            |c: nat, r: nat| self.spec_has_card(c as int, r as int) && r >= 1,
        );
    }

    /// Every location listed as an injured person holds an injured person, and none is listed
    /// twice.
    pub proof fn lemma_injured_person_locs(self)
        ensures
            forall|i: int|
                0 <= i < self.spec_injured_person_locs().len() ==> {
                    let l = #[trigger] self.spec_injured_person_locs()[i];
                    &&& self.spec_has_card(l.0 as int, l.1 as int)
                    &&& l.1 >= 1
                    &&& self.columns[l.0 as int].person_slots[l.1 - 1]->Some_0.spec_is_injured()
                },
            self.spec_injured_person_locs().no_duplicates(),
    {
        let c0 = self.columns[0];
        let c1 = self.columns[1];
        let c2 = self.columns[2];
        lemma_if_seq2(c0.person_slots[0] matches Some(p) && p.spec_is_injured(), c0.person_slots[1] matches Some(p) && p.spec_is_injured(), 1, 2);
        lemma_if_seq2(c1.person_slots[0] matches Some(p) && p.spec_is_injured(), c1.person_slots[1] matches Some(p) && p.spec_is_injured(), 1, 2);
        lemma_if_seq2(c2.person_slots[0] matches Some(p) && p.spec_is_injured(), c2.person_slots[1] matches Some(p) && p.spec_is_injured(), 1, 2);
        lemma_in_columns(c0.spec_injured_rows(), c1.spec_injured_rows(), c2.spec_injured_rows(),
            |c: nat, r: nat| self.spec_has_card(c as int, r as int) && r >= 1 && self.columns[c as int].person_slots[r - 1]->Some_0.spec_is_injured());
    }

    /// Every location listed by `restorable_card_locs` holds a card that can be restored.
    #[verifier::spinoff_prover]
    pub proof fn lemma_restorable_card_locs(self)
        ensures
            forall|i: int|
                0 <= i < self.spec_restorable_card_locs().len() ==> {
                    let l = #[trigger] self.spec_restorable_card_locs()[i];
                    &&& l.0 < 3
                    &&& l.1 < 3
                    &&& self.spec_is_restorable_at(l.0 as int, l.1 as int)
                },
    {
        self.columns[0].lemma_restorable_rows();
        self.columns[1].lemma_restorable_rows();
        self.columns[2].lemma_restorable_rows();
        lemma_in_columns(self.columns[0].spec_restorable_card_rows(), self.columns[1].spec_restorable_card_rows(), self.columns[2].spec_restorable_card_rows(),
            |c: nat, r: nat| c < 3 && r < 3 && self.spec_is_restorable_at(c as int, r as int));
    }

    /// Every location listed by `person_locs` holds a person, and there is one location per
    /// person.
    pub proof fn lemma_person_locs(self)
        ensures
            forall|i: int|
                0 <= i < self.spec_person_locs().len() ==> {
                    let l = #[trigger] self.spec_person_locs()[i];
                    &&& l.0 < 3
                    &&& l.1 < 2
                    &&& self.columns[l.0 as int].person_slots[l.1 as int] is Some
                },
            self.spec_person_locs().len() == self.spec_people().len(),
    {
        let c0 = self.columns[0];
        let c1 = self.columns[1];
        let c2 = self.columns[2];
        lemma_if_seq2(c0.person_slots[0] is Some, c0.person_slots[1] is Some, 0, 1);
        lemma_if_seq2(c1.person_slots[0] is Some, c1.person_slots[1] is Some, 0, 1);
        lemma_if_seq2(c2.person_slots[0] is Some, c2.person_slots[1] is Some, 0, 1);
        lemma_in_columns(c0.spec_person_rows(), c1.spec_person_rows(), c2.spec_person_rows(),
            |c: nat, r: nat| c < 3 && r < 2 && self.columns[c as int].person_slots[r as int] is Some);
    }
}

} // verus!

verus! {

impl CardColumn {
    /// The rows listed by `card_rows` hold cards, in increasing order.
    pub proof fn lemma_card_rows(self)
        ensures
            forall|k: int|
                0 <= k < self.spec_card_rows().len() ==> {
                    let r = #[trigger] self.spec_card_rows()[k];
                    &&& r < 3
                    &&& r == 0 ==> self.camp.status != CampStatus::Destroyed
                    &&& r > 0 ==> self.person_slots[r - 1] is Some
                },
            forall|a: int, b: int|
                0 <= a < b < self.spec_card_rows().len() ==> self.spec_card_rows()[a] < self.spec_card_rows()[b],
    {
        lemma_if_seq3(self.camp.status != CampStatus::Destroyed, self.person_slots[0] is Some, self.person_slots[1] is Some, 0, 1, 2);
    }

    /// The rows listed by `restorable_card_rows` hold cards that can be restored.
    pub proof fn lemma_restorable_rows(self)
        ensures
            forall|k: int|
                0 <= k < self.spec_restorable_card_rows().len() ==> {
                    let r = #[trigger] self.spec_restorable_card_rows()[k];
                    &&& r < 3
                    &&& r == 0 ==> self.camp.status == CampStatus::Damaged
                    &&& r > 0 ==> (self.person_slots[r - 1] matches Some(p) && p.spec_is_injured())
                },
    {
        lemma_if_seq3(self.camp.status == CampStatus::Damaged, self.person_slots[0] matches Some(p) && p.spec_is_injured(), self.person_slots[1] matches Some(p) && p.spec_is_injured(), 0, 1, 2);
    }
}

} // verus!

verus! {

/// Two boards whose slots hold people with the same special-type status have an active person
/// of that special type alike.
pub proof fn lemma_special_alike(a: PlayerState, b: PlayerState, st: SpecialType)
    requires
        forall|c: int, r: int|
            0 <= c < 3 && 0 <= r < 2 ==> slot_is_active_special(#[trigger] a.columns[c].person_slots[r], st)
                == slot_is_active_special(b.columns[c].person_slots[r], st),
    ensures
        a.spec_has_special_person(st) == b.spec_has_special_person(st),
{
    if a.spec_has_special_person(st) {
        let (c, r) = choose|c: int, r: int| 0 <= c < 3 && 0 <= r < 2 && slot_is_active_special(#[trigger] a.columns[c].person_slots[r], st);
        assert(slot_is_active_special(b.columns[c].person_slots[r], st));
    }
    if b.spec_has_special_person(st) {
        let (c, r) = choose|c: int, r: int| 0 <= c < 3 && 0 <= r < 2 && slot_is_active_special(#[trigger] b.columns[c].person_slots[r], st);
        assert(slot_is_active_special(a.columns[c].person_slots[r], st));
    }
}

} // verus!
