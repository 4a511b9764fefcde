//! The event cards.

use vstd::prelude::*;

use super::IconEffect;

verus! {

/// A type of event card.
#[derive(Debug, Clone, Copy, PartialEq, Eq, Structural, Hash)]
pub enum EventType {
    /// Injures all unprotected enemies; resolves immediately.
    Strafe,
    /// Raiders: the opponent damages one of their camps. It is never in the deck; the raid
    /// effect plays or advances it.
    Raiders,
}

impl EventType {
    /// The event's name, as a specification.
    pub open spec fn spec_name(self) -> &'static str {
        match self {
            EventType::Strafe => "Strafe",
            EventType::Raiders => "Raiders",
        }
    }

    /// The event's name.
    pub fn name(self) -> (r: &'static str)
        ensures
            r == self.spec_name(),
    {
        match self {
            EventType::Strafe => "Strafe",
            EventType::Raiders => "Raiders",
        }
    }

    /// How many of this event type are in the deck.
    pub open spec fn spec_num_in_deck(self) -> u32 {
        match self {
            EventType::Strafe => 2,
            EventType::Raiders => 1,
        }
    }

    /// How many of this event type are in the deck.
    #[verifier::when_used_as_spec(spec_num_in_deck)]
    pub fn num_in_deck(self) -> (r: u32)
        ensures
            r == self.spec_num_in_deck(),
    {
        match self {
            EventType::Strafe => 2,
            EventType::Raiders => 1,
        }
    }

    /// The event's junk effect. Raiders can never be junked.
    pub open spec fn spec_junk_effect(self) -> IconEffect {
        IconEffect::Draw
    }

    /// The event's junk effect. Raiders can never be junked.
    #[verifier::when_used_as_spec(spec_junk_effect)]
    pub fn junk_effect(self) -> (r: IconEffect)
        requires
            self != EventType::Raiders,
        ensures
            r == self.spec_junk_effect(),
    {
        IconEffect::Draw
    }

    /// The water cost to play this event. Raiders does not have a water cost.
    pub open spec fn spec_cost(self) -> u32 {
        2
    }

    /// The water cost to play this event. Raiders does not have a water cost.
    #[verifier::when_used_as_spec(spec_cost)]
    pub fn cost(self) -> (r: u32)
        requires
            self != EventType::Raiders,
        ensures
            r == self.spec_cost(),
    {
        2
    }

    /// The number of turns before the event resolves after being played (zero is immediate).
    pub open spec fn spec_resolve_turns(self) -> u8 {
        match self {
            EventType::Strafe => 0,
            EventType::Raiders => 2,
        }
    }

    /// The number of turns before the event resolves after being played (zero is immediate).
    #[verifier::when_used_as_spec(spec_resolve_turns)]
    pub fn resolve_turns(self) -> (r: u8)
        ensures
            r == self.spec_resolve_turns(),
    {
        match self {
            EventType::Strafe => 0,
            EventType::Raiders => 2,
        }
    }

    /// Returns this event if it is the Raiders event, otherwise None.
    pub fn as_raiders(self) -> (r: Option<RaidersEvent>)
        ensures
            r is Some <==> self == EventType::Raiders,
    {
        match self {
            EventType::Raiders => Some(RaidersEvent),
            _ => None,
        }
    }
}

/// The Raiders event.
#[derive(Debug, Clone, Copy, PartialEq, Eq, Structural, Hash)]
pub struct RaidersEvent;

impl RaidersEvent {
    /// The event type of Raiders.
    pub fn event_type(self) -> (r: EventType)
        ensures
            r == EventType::Raiders,
    {
        EventType::Raiders
    }
}

/// Returns the event types that are shuffled into the deck.
pub fn get_event_types() -> (r: Vec<EventType>)
    ensures
        r@ == seq![EventType::Strafe],
{
    vec![EventType::Strafe]
}

/// The event cards: Strafe costs 2 water, resolves at once, comes twice in the deck and junks for
/// a draw; the Raiders event, which the raid effect plays, resolves after 2 turns and there is
/// one of it.
pub proof fn lemma_event_card_list()
    ensures
        EventType::Strafe.spec_cost() == 2,
        EventType::Strafe.spec_resolve_turns() == 0,
        EventType::Strafe.spec_num_in_deck() == 2,
        EventType::Strafe.spec_junk_effect() == IconEffect::Draw,
        EventType::Raiders.spec_resolve_turns() == 2,
        EventType::Raiders.spec_num_in_deck() == 1,
{
}

} // verus!
