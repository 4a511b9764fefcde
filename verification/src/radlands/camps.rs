//! The camp cards.

use vstd::prelude::*;

verus! {

/// A type of camp card.
#[derive(Debug, Clone, Copy, PartialEq, Eq, Structural, Hash)]
pub enum CampType {
    Outpost,
    Railgun,
    VictoryTotem,
    ScudLauncher,
    Cannon,
    Garage,
}

impl CampType {
    /// The camp's name, as a specification.
    pub open spec fn spec_name(self) -> &'static str {
        match self {
            CampType::Outpost => "Outpost",
            CampType::Railgun => "Railgun",
            CampType::VictoryTotem => "Victory Totem",
            CampType::ScudLauncher => "Scud Launcher",
            CampType::Cannon => "Cannon",
            CampType::Garage => "Garage",
        }
    }

    /// The camp's name.
    pub fn name(self) -> (r: &'static str)
        ensures
            r == self.spec_name(),
    {
        match self {
            CampType::Outpost => "Outpost",
            CampType::Railgun => "Railgun",
            CampType::VictoryTotem => "Victory Totem",
            CampType::ScudLauncher => "Scud Launcher",
            CampType::Cannon => "Cannon",
            CampType::Garage => "Garage",
        }
    }

    /// The number of cards this camp grants at the start of the game.
    pub open spec fn spec_num_initial_cards(self) -> u32 {
        match self {
            CampType::Outpost | CampType::VictoryTotem | CampType::Cannon => 1,
            _ => 0,
        }
    }

    /// The number of cards this camp grants at the start of the game.
    #[verifier::when_used_as_spec(spec_num_initial_cards)]
    pub fn num_initial_cards(self) -> (r: u32)
        ensures
            r == self.spec_num_initial_cards(),
    {
        match self {
            CampType::Outpost | CampType::VictoryTotem | CampType::Cannon => 1,
            _ => 0,
        }
    }

    /// The number of abilities printed on this camp.
    pub open spec fn spec_num_abilities(self) -> u8 {
        match self {
            CampType::Outpost | CampType::VictoryTotem => 2,
            _ => 1,
        }
    }

    /// The number of abilities printed on this camp.
    #[verifier::when_used_as_spec(spec_num_abilities)]
    pub fn num_abilities(self) -> (r: u8)
        ensures
            r == self.spec_num_abilities(),
    {
        match self {
            CampType::Outpost | CampType::VictoryTotem => 2,
            _ => 1,
        }
    }
}

/// Returns all camp types.
pub fn get_camp_types() -> (r: Vec<CampType>)
    ensures
        r@ == seq![
            CampType::Outpost,
            CampType::Railgun,
            CampType::VictoryTotem,
            CampType::ScudLauncher,
            CampType::Cannon,
            CampType::Garage,
        ],
{
    vec![
        CampType::Outpost,
        CampType::Railgun,
        CampType::VictoryTotem,
        CampType::ScudLauncher,
        CampType::Cannon,
        CampType::Garage,
    ]
}

/// The starting cards printed on the camps: Outpost, Victory Totem and Cannon each deal one
/// card at the start of the game; Railgun, Scud Launcher and Garage deal none.
pub proof fn lemma_camp_card_list(t: CampType)
    ensures
        (t == CampType::Outpost || t == CampType::VictoryTotem || t == CampType::Cannon) ==> t.spec_num_initial_cards() == 1,
        (t == CampType::Railgun || t == CampType::ScudLauncher || t == CampType::Garage) ==> t.spec_num_initial_cards() == 0,
{
}

} // verus!
