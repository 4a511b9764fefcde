//! The person cards.

use vstd::prelude::*;

use super::IconEffect;

verus! {

/// Enum for identifying "special" people that require special handling.
#[derive(Debug, Clone, Copy, PartialEq, Eq, Structural, Hash)]
pub enum SpecialType {
    Ordinary,
    Holdout,
    Mimic,
    ArgoYesky,
    ZetoKhan,
    KarliBlaze,
    VeraVosh,
}

/// A type of person card.
#[derive(Debug, Clone, Copy, PartialEq, Eq, Structural, Hash)]
pub enum PersonType {
    CultLeader,
    Gunner,
    Holdout,
    RepairBot,
    RabbleRouser,
    Looter,
    Mimic,
    Sniper,
    Scientist,
    Mutant,
    Vigilante,
    RescueTeam,
    Vanguard,
    Assassin,
    Pyromaniac,
    Scout,
    WoundedSoldier,
    Muse,
    Doomsayer,
    Exterminator,
    ArgoYesky,
    MagnusKarv,
    MolgurStang,
}

impl PersonType {
    /// The person's name, as a specification.
    pub open spec fn spec_name(self) -> &'static str {
        match self {
            PersonType::CultLeader => "Cult Leader",
            PersonType::Gunner => "Gunner",
            PersonType::Holdout => "Holdout",
            PersonType::RepairBot => "Repair Bot",
            PersonType::RabbleRouser => "Rabble Rouser",
            PersonType::Looter => "Looter",
            PersonType::Mimic => "Mimic",
            PersonType::Sniper => "Sniper",
            PersonType::Scientist => "Scientist",
            PersonType::Mutant => "Mutant",
            PersonType::Vigilante => "Vigilante",
            PersonType::RescueTeam => "Rescue Team",
            PersonType::Vanguard => "Vanguard",
            PersonType::Assassin => "Assassin",
            PersonType::Pyromaniac => "Pyromaniac",
            PersonType::Scout => "Scout",
            PersonType::WoundedSoldier => "Wounded Soldier",
            PersonType::Muse => "Muse",
            PersonType::Doomsayer => "Doomsayer",
            PersonType::Exterminator => "Exterminator",
            PersonType::ArgoYesky => "Argo Yesky",
            PersonType::MagnusKarv => "Magnus Karv",
            PersonType::MolgurStang => "Molgur Stang",
        }
    }

    /// The person's name.
    pub fn name(self) -> (r: &'static str)
        ensures
            r == self.spec_name(),
    {
        match self {
            PersonType::CultLeader => "Cult Leader",
            PersonType::Gunner => "Gunner",
            PersonType::Holdout => "Holdout",
            PersonType::RepairBot => "Repair Bot",
            PersonType::RabbleRouser => "Rabble Rouser",
            PersonType::Looter => "Looter",
            PersonType::Mimic => "Mimic",
            PersonType::Sniper => "Sniper",
            PersonType::Scientist => "Scientist",
            PersonType::Mutant => "Mutant",
            PersonType::Vigilante => "Vigilante",
            PersonType::RescueTeam => "Rescue Team",
            PersonType::Vanguard => "Vanguard",
            PersonType::Assassin => "Assassin",
            PersonType::Pyromaniac => "Pyromaniac",
            PersonType::Scout => "Scout",
            PersonType::WoundedSoldier => "Wounded Soldier",
            PersonType::Muse => "Muse",
            PersonType::Doomsayer => "Doomsayer",
            PersonType::Exterminator => "Exterminator",
            PersonType::ArgoYesky => "Argo Yesky",
            PersonType::MagnusKarv => "Magnus Karv",
            PersonType::MolgurStang => "Molgur Stang",
        }
    }

    /// How many of this person type are in the deck.
    pub open spec fn spec_num_in_deck(self) -> u32 {
        match self {
            PersonType::ArgoYesky | PersonType::MagnusKarv | PersonType::MolgurStang => 1,
            _ => 2,
        }
    }

    /// How many of this person type are in the deck.
    #[verifier::when_used_as_spec(spec_num_in_deck)]
    pub fn num_in_deck(self) -> (r: u32)
        ensures
            r == self.spec_num_in_deck(),
    {
        match self {
            PersonType::ArgoYesky | PersonType::MagnusKarv | PersonType::MolgurStang => 1,
            _ => 2,
        }
    }

    /// The person's junk effect.
    pub open spec fn spec_junk_effect(self) -> IconEffect {
        match self {
            PersonType::CultLeader => IconEffect::Draw,
            PersonType::Gunner => IconEffect::Restore,
            PersonType::Holdout => IconEffect::Raid,
            PersonType::RepairBot => IconEffect::Injure,
            PersonType::RabbleRouser => IconEffect::Raid,
            PersonType::Looter => IconEffect::Water,
            PersonType::Mimic => IconEffect::Injure,
            PersonType::Sniper => IconEffect::Restore,
            PersonType::Scientist => IconEffect::Raid,
            PersonType::Mutant => IconEffect::Injure,
            PersonType::Vigilante => IconEffect::Injure,
            PersonType::RescueTeam => IconEffect::Injure,
            PersonType::Vanguard => IconEffect::Raid,
            PersonType::Assassin => IconEffect::Raid,
            PersonType::Pyromaniac => IconEffect::Injure,
            PersonType::Scout => IconEffect::Water,
            PersonType::WoundedSoldier => IconEffect::Injure,
            PersonType::Muse => IconEffect::Injure,
            PersonType::Doomsayer => IconEffect::Draw,
            PersonType::Exterminator => IconEffect::Draw,
            PersonType::ArgoYesky => IconEffect::GainPunk,
            PersonType::MagnusKarv => IconEffect::GainPunk,
            PersonType::MolgurStang => IconEffect::GainPunk,
        }
    }

    /// The person's junk effect.
    #[verifier::when_used_as_spec(spec_junk_effect)]
    pub fn junk_effect(self) -> (r: IconEffect)
        ensures
            r == self.spec_junk_effect(),
    {
        match self {
            PersonType::CultLeader => IconEffect::Draw,
            PersonType::Gunner => IconEffect::Restore,
            PersonType::Holdout => IconEffect::Raid,
            PersonType::RepairBot => IconEffect::Injure,
            PersonType::RabbleRouser => IconEffect::Raid,
            PersonType::Looter => IconEffect::Water,
            PersonType::Mimic => IconEffect::Injure,
            PersonType::Sniper => IconEffect::Restore,
            PersonType::Scientist => IconEffect::Raid,
            PersonType::Mutant => IconEffect::Injure,
            PersonType::Vigilante => IconEffect::Injure,
            PersonType::RescueTeam => IconEffect::Injure,
            PersonType::Vanguard => IconEffect::Raid,
            PersonType::Assassin => IconEffect::Raid,
            PersonType::Pyromaniac => IconEffect::Injure,
            PersonType::Scout => IconEffect::Water,
            PersonType::WoundedSoldier => IconEffect::Injure,
            PersonType::Muse => IconEffect::Injure,
            PersonType::Doomsayer => IconEffect::Draw,
            PersonType::Exterminator => IconEffect::Draw,
            PersonType::ArgoYesky => IconEffect::GainPunk,
            PersonType::MagnusKarv => IconEffect::GainPunk,
            PersonType::MolgurStang => IconEffect::GainPunk,
        }
    }

    /// The water cost to play this person.
    pub open spec fn spec_cost(self) -> u32 {
        match self {
            PersonType::Holdout => 2,
            PersonType::ArgoYesky | PersonType::MagnusKarv => 3,
            PersonType::MolgurStang => 4,
            _ => 1,
        }
    }

    /// The water cost to play this person.
    #[verifier::when_used_as_spec(spec_cost)]
    pub fn cost(self) -> (r: u32)
        ensures
            r == self.spec_cost(),
    {
        match self {
            PersonType::Holdout => 2,
            PersonType::ArgoYesky | PersonType::MagnusKarv => 3,
            PersonType::MolgurStang => 4,
            _ => 1,
        }
    }

    /// The number of abilities printed on this person.
    pub open spec fn spec_num_abilities(self) -> u8 {
        match self {
            PersonType::Mimic => 0,
            PersonType::RabbleRouser => 2,
            _ => 1,
        }
    }

    /// The number of abilities printed on this person.
    #[verifier::when_used_as_spec(spec_num_abilities)]
    pub fn num_abilities(self) -> (r: u8)
        ensures
            r == self.spec_num_abilities(),
    {
        match self {
            PersonType::Mimic => 0,
            PersonType::RabbleRouser => 2,
            _ => 1,
        }
    }

    /// Whether this person has an effect when it enters play.
    pub open spec fn spec_has_on_enter_play(self) -> bool {
        match self {
            PersonType::RepairBot | PersonType::Vanguard | PersonType::WoundedSoldier
            | PersonType::Doomsayer | PersonType::ArgoYesky => true,
            _ => false,
        }
    }

    /// Whether this person has an effect when it enters play.
    #[verifier::when_used_as_spec(spec_has_on_enter_play)]
    pub fn has_on_enter_play(self) -> (r: bool)
        ensures
            r == self.spec_has_on_enter_play(),
    {
        match self {
            PersonType::RepairBot | PersonType::Vanguard | PersonType::WoundedSoldier
            | PersonType::Doomsayer | PersonType::ArgoYesky => true,
            _ => false,
        }
    }

    /// Whether this person enters play ready.
    pub open spec fn spec_enters_play_ready(self) -> bool {
        self == PersonType::RescueTeam
    }

    /// Whether this person enters play ready.
    #[verifier::when_used_as_spec(spec_enters_play_ready)]
    pub fn enters_play_ready(self) -> (r: bool)
        ensures
            r == self.spec_enters_play_ready(),
    {
        match self {
            PersonType::RescueTeam => true,
            _ => false,
        }
    }

    /// The special identity of this person type (if any).
    pub open spec fn spec_special_type(self) -> SpecialType {
        match self {
            PersonType::Holdout => SpecialType::Holdout,
            PersonType::Mimic => SpecialType::Mimic,
            PersonType::ArgoYesky => SpecialType::ArgoYesky,
            _ => SpecialType::Ordinary,
        }
    }

    /// The special identity of this person type (if any).
    #[verifier::when_used_as_spec(spec_special_type)]
    pub fn special_type(self) -> (r: SpecialType)
        ensures
            r == self.spec_special_type(),
    {
        match self {
            PersonType::Holdout => SpecialType::Holdout,
            PersonType::Mimic => SpecialType::Mimic,
            PersonType::ArgoYesky => SpecialType::ArgoYesky,
            _ => SpecialType::Ordinary,
        }
    }

    /// The position of this type in the list of all person types.
    pub open spec fn spec_index(self) -> u32 {
        match self {
            PersonType::CultLeader => 0,
            PersonType::Gunner => 1,
            PersonType::Holdout => 2,
            PersonType::RepairBot => 3,
            PersonType::RabbleRouser => 4,
            PersonType::Looter => 5,
            PersonType::Mimic => 6,
            PersonType::Sniper => 7,
            PersonType::Scientist => 8,
            PersonType::Mutant => 9,
            PersonType::Vigilante => 10,
            PersonType::RescueTeam => 11,
            PersonType::Vanguard => 12,
            PersonType::Assassin => 13,
            PersonType::Pyromaniac => 14,
            PersonType::Scout => 15,
            PersonType::WoundedSoldier => 16,
            PersonType::Muse => 17,
            PersonType::Doomsayer => 18,
            PersonType::Exterminator => 19,
            PersonType::ArgoYesky => 20,
            PersonType::MagnusKarv => 21,
            PersonType::MolgurStang => 22,
        }
    }

    /// The position of this type in the list of all person types.
    #[verifier::when_used_as_spec(spec_index)]
    pub fn index(self) -> (r: u32)
        ensures
            r == self.spec_index(),
    {
        match self {
            PersonType::CultLeader => 0,
            PersonType::Gunner => 1,
            PersonType::Holdout => 2,
            PersonType::RepairBot => 3,
            PersonType::RabbleRouser => 4,
            PersonType::Looter => 5,
            PersonType::Mimic => 6,
            PersonType::Sniper => 7,
            PersonType::Scientist => 8,
            PersonType::Mutant => 9,
            PersonType::Vigilante => 10,
            PersonType::RescueTeam => 11,
            PersonType::Vanguard => 12,
            PersonType::Assassin => 13,
            PersonType::Pyromaniac => 14,
            PersonType::Scout => 15,
            PersonType::WoundedSoldier => 16,
            PersonType::Muse => 17,
            PersonType::Doomsayer => 18,
            PersonType::Exterminator => 19,
            PersonType::ArgoYesky => 20,
            PersonType::MagnusKarv => 21,
            PersonType::MolgurStang => 22,
        }
    }

    /// The person type at the given position of the list of all person types.
    pub open spec fn spec_from_index(i: u32) -> Option<PersonType> {
        if i == 0 {
            Some(PersonType::CultLeader)
        } else if i == 1 {
            Some(PersonType::Gunner)
        } else if i == 2 {
            Some(PersonType::Holdout)
        } else if i == 3 {
            Some(PersonType::RepairBot)
        } else if i == 4 {
            Some(PersonType::RabbleRouser)
        } else if i == 5 {
            Some(PersonType::Looter)
        } else if i == 6 {
            Some(PersonType::Mimic)
        } else if i == 7 {
            Some(PersonType::Sniper)
        } else if i == 8 {
            Some(PersonType::Scientist)
        } else if i == 9 {
            Some(PersonType::Mutant)
        } else if i == 10 {
            Some(PersonType::Vigilante)
        } else if i == 11 {
            Some(PersonType::RescueTeam)
        } else if i == 12 {
            Some(PersonType::Vanguard)
        } else if i == 13 {
            Some(PersonType::Assassin)
        } else if i == 14 {
            Some(PersonType::Pyromaniac)
        } else if i == 15 {
            Some(PersonType::Scout)
        } else if i == 16 {
            Some(PersonType::WoundedSoldier)
        } else if i == 17 {
            Some(PersonType::Muse)
        } else if i == 18 {
            Some(PersonType::Doomsayer)
        } else if i == 19 {
            Some(PersonType::Exterminator)
        } else if i == 20 {
            Some(PersonType::ArgoYesky)
        } else if i == 21 {
            Some(PersonType::MagnusKarv)
        } else if i == 22 {
            Some(PersonType::MolgurStang)
        } else {
            None
        }
    }

    /// The person type at the given position of the list of all person types.
    pub fn from_index(i: u32) -> (r: Option<PersonType>)
        ensures
            r == Self::spec_from_index(i),
    {
        if i == 0 {
            Some(PersonType::CultLeader)
        } else if i == 1 {
            Some(PersonType::Gunner)
        } else if i == 2 {
            Some(PersonType::Holdout)
        } else if i == 3 {
            Some(PersonType::RepairBot)
        } else if i == 4 {
            Some(PersonType::RabbleRouser)
        } else if i == 5 {
            Some(PersonType::Looter)
        } else if i == 6 {
            Some(PersonType::Mimic)
        } else if i == 7 {
            Some(PersonType::Sniper)
        } else if i == 8 {
            Some(PersonType::Scientist)
        } else if i == 9 {
            Some(PersonType::Mutant)
        } else if i == 10 {
            Some(PersonType::Vigilante)
        } else if i == 11 {
            Some(PersonType::RescueTeam)
        } else if i == 12 {
            Some(PersonType::Vanguard)
        } else if i == 13 {
            Some(PersonType::Assassin)
        } else if i == 14 {
            Some(PersonType::Pyromaniac)
        } else if i == 15 {
            Some(PersonType::Scout)
        } else if i == 16 {
            Some(PersonType::WoundedSoldier)
        } else if i == 17 {
            Some(PersonType::Muse)
        } else if i == 18 {
            Some(PersonType::Doomsayer)
        } else if i == 19 {
            Some(PersonType::Exterminator)
        } else if i == 20 {
            Some(PersonType::ArgoYesky)
        } else if i == 21 {
            Some(PersonType::MagnusKarv)
        } else if i == 22 {
            Some(PersonType::MolgurStang)
        } else {
            None
        }
    }
}

/// The number of person types.
pub const NUM_PERSON_TYPES: u32 = 23;

/// Numbering the person types and looking the number up again gives back the type.
pub proof fn lemma_person_index_round_trip(p: PersonType)
    ensures
        PersonType::spec_from_index(p.spec_index()) == Some(p),
        p.spec_index() < NUM_PERSON_TYPES,
{
}

/// The person type found by index has that index.
pub proof fn lemma_person_from_index(i: u32)
    ensures
        PersonType::spec_from_index(i) matches Some(p) ==> p.spec_index() == i,
{
}

/// Returns all person types, in order of their index.
pub fn get_person_types() -> (r: Vec<PersonType>)
    ensures
        r@.len() == NUM_PERSON_TYPES,
        forall|i: int| 0 <= i < r@.len() ==> #[trigger] r@[i].spec_index() == i,
{
    let mut r: Vec<PersonType> = Vec::new();
    let mut i: u32 = 0;
    while i < NUM_PERSON_TYPES
        invariant
            i <= NUM_PERSON_TYPES,
            r@.len() == i,
            forall|j: int| 0 <= j < r@.len() ==> #[trigger] r@[j].spec_index() == j,
        decreases NUM_PERSON_TYPES - i,
    {
        match PersonType::from_index(i) {
            Some(p) => r.push(p),
            None => {
                assert(false);
            },
        }
        i += 1;
    }
    r
}

/// The water cost and the number of copies printed on the person cards: Holdout costs 2, Argo
/// Yesky and Magnus Karv 3, Molgur Stang 4, and every other person 1; the three unique people,
/// Argo Yesky, Magnus Karv and Molgur Stang, come once in the deck, every other person twice.
pub proof fn lemma_person_card_list(t: PersonType)
    ensures
        PersonType::Holdout.spec_cost() == 2,
        PersonType::ArgoYesky.spec_cost() == 3,
        PersonType::MagnusKarv.spec_cost() == 3,
        PersonType::MolgurStang.spec_cost() == 4,
        t != PersonType::Holdout && t != PersonType::ArgoYesky && t != PersonType::MagnusKarv
            && t != PersonType::MolgurStang ==> t.spec_cost() == 1,
        t == PersonType::ArgoYesky || t == PersonType::MagnusKarv || t == PersonType::MolgurStang
            ==> t.spec_num_in_deck() == 1,
        !(t == PersonType::ArgoYesky || t == PersonType::MagnusKarv || t == PersonType::MolgurStang)
            ==> t.spec_num_in_deck() == 2,
{
}

/// The junk effect printed on each person card.
pub proof fn lemma_person_junk_effects()
    ensures
        PersonType::CultLeader.spec_junk_effect() == IconEffect::Draw,
        PersonType::Gunner.spec_junk_effect() == IconEffect::Restore,
        PersonType::Holdout.spec_junk_effect() == IconEffect::Raid,
        PersonType::RepairBot.spec_junk_effect() == IconEffect::Injure,
        PersonType::RabbleRouser.spec_junk_effect() == IconEffect::Raid,
        PersonType::Looter.spec_junk_effect() == IconEffect::Water,
        PersonType::Mimic.spec_junk_effect() == IconEffect::Injure,
        PersonType::Sniper.spec_junk_effect() == IconEffect::Restore,
        PersonType::Scientist.spec_junk_effect() == IconEffect::Raid,
        PersonType::Mutant.spec_junk_effect() == IconEffect::Injure,
        PersonType::Vigilante.spec_junk_effect() == IconEffect::Injure,
        PersonType::RescueTeam.spec_junk_effect() == IconEffect::Injure,
        PersonType::Vanguard.spec_junk_effect() == IconEffect::Raid,
        PersonType::Assassin.spec_junk_effect() == IconEffect::Raid,
        PersonType::Pyromaniac.spec_junk_effect() == IconEffect::Injure,
        PersonType::Scout.spec_junk_effect() == IconEffect::Water,
        PersonType::WoundedSoldier.spec_junk_effect() == IconEffect::Injure,
        PersonType::Muse.spec_junk_effect() == IconEffect::Injure,
        PersonType::Doomsayer.spec_junk_effect() == IconEffect::Draw,
        PersonType::Exterminator.spec_junk_effect() == IconEffect::Draw,
        PersonType::ArgoYesky.spec_junk_effect() == IconEffect::GainPunk,
        PersonType::MagnusKarv.spec_junk_effect() == IconEffect::GainPunk,
        PersonType::MolgurStang.spec_junk_effect() == IconEffect::GainPunk,
{
}

} // verus!
