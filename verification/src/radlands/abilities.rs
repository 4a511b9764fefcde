//! Abilities of camps and people.

use vstd::prelude::*;

use super::camps::CampType;
use super::choices::{
    ChoiceFuture, Choice, DamageColumnChoice, IconEffectChoice, RescuePersonChoice, Step,
    card_loc_pairs, is_damage_future, person_at,
};
use super::locations::{CardLocation, ColumnIndex, Player, PlayLocation};
use super::people::PersonType;
use super::player_state::{play_loc_pairs, CampStatus};
use super::views::{
    effect_outcome, injured_all, intact_camp_locs, lemma_damage_future_valid, locs_on_board,
    person_card_locs, unprotected_camp_locs, same_but_columns, column_hit, discards_for_pairs,
};
use super::{damage_outcome, draw_outcome, GameResult, GameState, IconEffect, PersonOrEventType, piles_wf, MAX_CARDS};

verus! {

broadcast use {vstd::multiset::group_multiset_axioms, vstd::seq_lib::group_to_multiset_ensures};

/// An ability whose behavior is written out rather than being a single icon effect.
#[derive(Debug, Copy, Clone, PartialEq, Eq, Structural, Hash)]
pub enum CustomAbility {
    /// Destroy one of your people, then damage.
    CultLeader,
    /// Injure all unprotected enemies.
    Gunner,
    /// (If you have a punk) Damage.
    RabbleRouserDamage,
    /// Damage; if this hits a camp, draw.
    Looter,
    /// Damage any (opponent) card.
    Sniper,
    /// Discard the top 3; may use the junk effect of one.
    Scientist,
    /// Damage and/or Restore, then damage this card.
    Mutant,
    /// Return one of your people to your hand.
    RescueTeam,
    /// Damage, then opponent does damage back to you.
    Vanguard,
    /// Destroy an unprotected (opponent) person.
    Assassin,
    /// Damage an unprotected (opponent) camp.
    Pyromaniac,
    /// (If opponent has an event in play) Damage.
    Doomsayer,
    /// Destroy all damaged enemies.
    Exterminator,
    /// Damage all cards in one of the opponent's columns.
    MagnusKarv,
    /// Destroy any (opponent) camp.
    MolgurStang,
    /// Damage an opponent's card of their choice.
    ScudLauncher,
    /// Damage this card, then damage.
    Cannon,
}

/// An ability on a camp or person.
#[derive(Debug, Copy, Clone, PartialEq, Eq, Structural, Hash)]
pub enum Ability {
    /// An ability that performs an icon effect for a water cost.
    Icon { cost: u32, effect: IconEffect },
    /// An ability with its own behavior.
    Custom(CustomAbility),
}

/// Creates an ability that performs an icon effect.
pub fn icon_ability(cost: u32, effect: IconEffect) -> (r: Ability)
    ensures
        r == (Ability::Icon { cost, effect }),
{
    Ability::Icon { cost, effect }
}

impl Ability {
    /// The water cost of this ability, as a specification.
    pub open spec fn spec_cost(self) -> u32 {
        match self {
            Ability::Icon { cost, .. } => cost,
            Ability::Custom(c) => match c {
                CustomAbility::CultLeader | CustomAbility::Mutant | CustomAbility::RescueTeam => 0,
                CustomAbility::Gunner | CustomAbility::Looter | CustomAbility::Sniper
                | CustomAbility::Assassin | CustomAbility::MagnusKarv => 2,
                _ => 1,
            },
        }
    }

    /// Returns the water cost of this ability.
    #[verifier::when_used_as_spec(spec_cost)]
    pub fn cost(self) -> (r: u32)
        ensures
            r == self.spec_cost(),
    {
        match self {
            Ability::Icon { cost, .. } => cost,
            Ability::Custom(c) => match c {
                CustomAbility::CultLeader | CustomAbility::Mutant | CustomAbility::RescueTeam => 0,
                CustomAbility::Gunner | CustomAbility::Looter | CustomAbility::Sniper
                | CustomAbility::Assassin | CustomAbility::MagnusKarv => 2,
                _ => 1,
            },
        }
    }

    /// A description of this ability for display, as a specification.
    pub open spec fn spec_description(self) -> &'static str {
        match self {
            Ability::Icon { effect, .. } => match effect {
                IconEffect::Damage => "Damage",
                IconEffect::Injure => "Injure",
                IconEffect::Restore => "Restore",
                IconEffect::Draw => "Draw",
                IconEffect::Water => "Water",
                IconEffect::GainPunk => "GainPunk",
                IconEffect::Raid => "Raid",
            },
            Ability::Custom(c) => match c {
                CustomAbility::CultLeader => "Destroy one of your people, then damage",
                CustomAbility::Gunner => "Injure all unprotected enemies",
                CustomAbility::RabbleRouserDamage => "(If you have a punk) Damage",
                CustomAbility::Looter => "Damage; if this hits a camp, draw",
                CustomAbility::Sniper => "Damage any (opponent) card",
                CustomAbility::Scientist => "Discard the top 3; may use the junk effect of one",
                CustomAbility::Mutant => "Damage and/or Restore, then damage this card",
                CustomAbility::RescueTeam => "Return one of your people to your hand",
                CustomAbility::Vanguard => "Damage, then opponent does damage back to you",
                CustomAbility::Assassin => "Destroy an unprotected (opponent) person",
                CustomAbility::Pyromaniac => "Damage an unprotected (opponent) camp",
                CustomAbility::Doomsayer => "(If opponent has an event in play) Damage",
                CustomAbility::Exterminator => "Destroy all damaged enemies",
                CustomAbility::MagnusKarv => "Damage all cards in one of the opponent's columns",
                CustomAbility::MolgurStang => "Destroy any (opponent) camp",
                CustomAbility::ScudLauncher => "Damage an opponent's card of their choice",
                CustomAbility::Cannon => "Damage this card, then damage",
            },
        }
    }

    /// Returns a description of this ability for display.
    pub fn description(self) -> (r: &'static str)
        ensures
            r == self.spec_description(),
    {
        match self {
            Ability::Icon { effect, .. } => match effect {
                IconEffect::Damage => "Damage",
                IconEffect::Injure => "Injure",
                IconEffect::Restore => "Restore",
                IconEffect::Draw => "Draw",
                IconEffect::Water => "Water",
                IconEffect::GainPunk => "GainPunk",
                IconEffect::Raid => "Raid",
            },
            Ability::Custom(c) => match c {
                CustomAbility::CultLeader => "Destroy one of your people, then damage",
                CustomAbility::Gunner => "Injure all unprotected enemies",
                CustomAbility::RabbleRouserDamage => "(If you have a punk) Damage",
                CustomAbility::Looter => "Damage; if this hits a camp, draw",
                CustomAbility::Sniper => "Damage any (opponent) card",
                CustomAbility::Scientist => "Discard the top 3; may use the junk effect of one",
                CustomAbility::Mutant => "Damage and/or Restore, then damage this card",
                CustomAbility::RescueTeam => "Return one of your people to your hand",
                CustomAbility::Vanguard => "Damage, then opponent does damage back to you",
                CustomAbility::Assassin => "Destroy an unprotected (opponent) person",
                CustomAbility::Pyromaniac => "Damage an unprotected (opponent) camp",
                CustomAbility::Doomsayer => "(If opponent has an event in play) Damage",
                CustomAbility::Exterminator => "Destroy all damaged enemies",
                CustomAbility::MagnusKarv => "Damage all cards in one of the opponent's columns",
                CustomAbility::MolgurStang => "Destroy any (opponent) camp",
                CustomAbility::ScudLauncher => "Damage an opponent's card of their choice",
                CustomAbility::Cannon => "Damage this card, then damage",
            },
        }
    }
}

impl PersonType {
    /// The abilities printed on this person, as a specification.
    pub open spec fn spec_abilities(self) -> Seq<Ability> {
        match self {
            PersonType::CultLeader => seq![Ability::Custom(CustomAbility::CultLeader)],
            PersonType::Gunner => seq![Ability::Custom(CustomAbility::Gunner)],
            PersonType::Holdout => seq![Ability::Icon { cost: 1, effect: IconEffect::Damage }],
            PersonType::RepairBot => seq![Ability::Icon { cost: 2, effect: IconEffect::Restore }],
            PersonType::RabbleRouser => seq![
                Ability::Icon { cost: 1, effect: IconEffect::GainPunk },
                Ability::Custom(CustomAbility::RabbleRouserDamage),
            ],
            PersonType::Looter => seq![Ability::Custom(CustomAbility::Looter)],
            PersonType::Mimic => Seq::empty(),
            PersonType::Sniper => seq![Ability::Custom(CustomAbility::Sniper)],
            PersonType::Scientist => seq![Ability::Custom(CustomAbility::Scientist)],
            PersonType::Mutant => seq![Ability::Custom(CustomAbility::Mutant)],
            PersonType::Vigilante => seq![Ability::Icon { cost: 1, effect: IconEffect::Injure }],
            PersonType::RescueTeam => seq![Ability::Custom(CustomAbility::RescueTeam)],
            PersonType::Vanguard => seq![Ability::Custom(CustomAbility::Vanguard)],
            PersonType::Assassin => seq![Ability::Custom(CustomAbility::Assassin)],
            PersonType::Pyromaniac => seq![Ability::Custom(CustomAbility::Pyromaniac)],
            PersonType::Scout => seq![Ability::Icon { cost: 1, effect: IconEffect::Raid }],
            PersonType::WoundedSoldier => seq![Ability::Icon { cost: 1, effect: IconEffect::Damage }],
            PersonType::Muse => seq![Ability::Icon { cost: 0, effect: IconEffect::Water }],
            PersonType::Doomsayer => seq![Ability::Custom(CustomAbility::Doomsayer)],
            PersonType::Exterminator => seq![Ability::Custom(CustomAbility::Exterminator)],
            PersonType::ArgoYesky => seq![Ability::Icon { cost: 1, effect: IconEffect::Damage }],
            PersonType::MagnusKarv => seq![Ability::Custom(CustomAbility::MagnusKarv)],
            PersonType::MolgurStang => seq![Ability::Custom(CustomAbility::MolgurStang)],
        }
    }

    /// Returns the abilities printed on this person.
    pub fn abilities(self) -> (r: Vec<Ability>)
        ensures
            r@ == self.spec_abilities(),
            r@.len() == self.spec_num_abilities(),
    {
        let r = match self {
            PersonType::CultLeader => vec![Ability::Custom(CustomAbility::CultLeader)],
            PersonType::Gunner => vec![Ability::Custom(CustomAbility::Gunner)],
            PersonType::Holdout => vec![icon_ability(1, IconEffect::Damage)],
            PersonType::RepairBot => vec![icon_ability(2, IconEffect::Restore)],
            PersonType::RabbleRouser => vec![
                icon_ability(1, IconEffect::GainPunk),
                Ability::Custom(CustomAbility::RabbleRouserDamage),
            ],
            PersonType::Looter => vec![Ability::Custom(CustomAbility::Looter)],
            PersonType::Mimic => Vec::new(),
            PersonType::Sniper => vec![Ability::Custom(CustomAbility::Sniper)],
            PersonType::Scientist => vec![Ability::Custom(CustomAbility::Scientist)],
            PersonType::Mutant => vec![Ability::Custom(CustomAbility::Mutant)],
            PersonType::Vigilante => vec![icon_ability(1, IconEffect::Injure)],
            PersonType::RescueTeam => vec![Ability::Custom(CustomAbility::RescueTeam)],
            PersonType::Vanguard => vec![Ability::Custom(CustomAbility::Vanguard)],
            PersonType::Assassin => vec![Ability::Custom(CustomAbility::Assassin)],
            PersonType::Pyromaniac => vec![Ability::Custom(CustomAbility::Pyromaniac)],
            PersonType::Scout => vec![icon_ability(1, IconEffect::Raid)],
            PersonType::WoundedSoldier => vec![icon_ability(1, IconEffect::Damage)],
            PersonType::Muse => vec![icon_ability(0, IconEffect::Water)],
            PersonType::Doomsayer => vec![Ability::Custom(CustomAbility::Doomsayer)],
            PersonType::Exterminator => vec![Ability::Custom(CustomAbility::Exterminator)],
            PersonType::ArgoYesky => vec![icon_ability(1, IconEffect::Damage)],
            PersonType::MagnusKarv => vec![Ability::Custom(CustomAbility::MagnusKarv)],
            PersonType::MolgurStang => vec![Ability::Custom(CustomAbility::MolgurStang)],
        };
        assert(r@ =~= self.spec_abilities());
        r
    }
}

impl CampType {
    /// The abilities printed on this camp, as a specification.
    pub open spec fn spec_abilities(self) -> Seq<Ability> {
        match self {
            CampType::Outpost => seq![
                Ability::Icon { cost: 2, effect: IconEffect::Raid },
                Ability::Icon { cost: 2, effect: IconEffect::Restore },
            ],
            CampType::Railgun => seq![Ability::Icon { cost: 2, effect: IconEffect::Damage }],
            CampType::VictoryTotem => seq![
                Ability::Icon { cost: 2, effect: IconEffect::Injure },
                Ability::Icon { cost: 2, effect: IconEffect::Raid },
            ],
            CampType::ScudLauncher => seq![Ability::Custom(CustomAbility::ScudLauncher)],
            CampType::Cannon => seq![Ability::Custom(CustomAbility::Cannon)],
            CampType::Garage => seq![Ability::Icon { cost: 1, effect: IconEffect::Raid }],
        }
    }

    /// Returns the abilities printed on this camp.
    pub fn abilities(self) -> (r: Vec<Ability>)
        ensures
            r@ == self.spec_abilities(),
            r@.len() == self.spec_num_abilities(),
    {
        let r = match self {
            CampType::Outpost => vec![
                icon_ability(2, IconEffect::Raid),
                icon_ability(2, IconEffect::Restore),
            ],
            CampType::Railgun => vec![icon_ability(2, IconEffect::Damage)],
            CampType::VictoryTotem => vec![
                icon_ability(2, IconEffect::Injure),
                icon_ability(2, IconEffect::Raid),
            ],
            CampType::ScudLauncher => vec![Ability::Custom(CustomAbility::ScudLauncher)],
            CampType::Cannon => vec![Ability::Custom(CustomAbility::Cannon)],
            CampType::Garage => vec![icon_ability(1, IconEffect::Raid)],
        };
        assert(r@ =~= self.spec_abilities());
        r
    }
}

impl Ability {
    /// Whether the ability can be used by the player in the game state, not counting its water
    /// cost.
    pub open spec fn spec_can_perform(self, gs: GameState, p: Player) -> bool {
        let me = gs.spec_player(p);
        let them = gs.spec_player(p.spec_other());
        match self {
            Ability::Icon { effect, .. } => gs.spec_effect_can_perform(p, effect),
            Ability::Custom(c) => match c {
                CustomAbility::Gunner | CustomAbility::Assassin => them.spec_people().len() > 0,
                CustomAbility::RabbleRouserDamage => exists|i: int|
                    0 <= i < me.spec_people().len() && #[trigger] me.spec_people()[i] is Punk,
                CustomAbility::Pyromaniac => exists|i: int|
                    0 <= i < them.spec_unprotected_card_locs().len()
                        && (#[trigger] them.spec_unprotected_card_locs()[i]).1 == 0,
                CustomAbility::Doomsayer => them.spec_has_event(),
                CustomAbility::Exterminator => them.spec_has_injured_person(),
                _ => true,
            },
        }
    }

    /// Performing the ability cannot fail: a raid needs room for the Raiders event.
    pub open spec fn spec_perform_ok(self, gs: GameState, p: Player) -> bool {
        match self {
            Ability::Icon { effect, .. } => gs.spec_effect_ok(p, effect),
            Ability::Custom(_) => true,
        }
    }
}

/// The water costs printed on the abilities of every person and camp card, in the order the
/// cards list them: Cult Leader 0, Gunner 2, Holdout 1, Repair Bot 2, Rabble Rouser 1 and 1,
/// Looter 2, Mimic none of its own, Sniper 2, Scientist 1, Mutant 0, Vigilante 1, Rescue Team 0,
/// Vanguard 1, Assassin 2, Pyromaniac 1, Scout 1, Wounded Soldier 1, Muse 0, Doomsayer 1,
/// Exterminator 1, Argo Yesky 1, Magnus Karv 2, Molgur Stang 1; Outpost 2 and 2, Railgun 2,
/// Victory Totem 2 and 2, Scud Launcher 1, Cannon 1, Garage 1.
pub proof fn lemma_printed_ability_costs()
    ensures
        PersonType::CultLeader.spec_abilities().len() == 1,
        PersonType::CultLeader.spec_abilities()[0].spec_cost() == 0,
        PersonType::Gunner.spec_abilities().len() == 1,
        PersonType::Gunner.spec_abilities()[0].spec_cost() == 2,
        PersonType::Holdout.spec_abilities().len() == 1,
        PersonType::Holdout.spec_abilities()[0].spec_cost() == 1,
        PersonType::RepairBot.spec_abilities().len() == 1,
        PersonType::RepairBot.spec_abilities()[0].spec_cost() == 2,
        PersonType::RabbleRouser.spec_abilities().len() == 2,
        PersonType::RabbleRouser.spec_abilities()[0].spec_cost() == 1,
        PersonType::RabbleRouser.spec_abilities()[1].spec_cost() == 1,
        PersonType::Looter.spec_abilities().len() == 1,
        PersonType::Looter.spec_abilities()[0].spec_cost() == 2,
        PersonType::Mimic.spec_abilities().len() == 0,
        PersonType::Sniper.spec_abilities().len() == 1,
        PersonType::Sniper.spec_abilities()[0].spec_cost() == 2,
        PersonType::Scientist.spec_abilities().len() == 1,
        PersonType::Scientist.spec_abilities()[0].spec_cost() == 1,
        PersonType::Mutant.spec_abilities().len() == 1,
        PersonType::Mutant.spec_abilities()[0].spec_cost() == 0,
        PersonType::Vigilante.spec_abilities().len() == 1,
        PersonType::Vigilante.spec_abilities()[0].spec_cost() == 1,
        PersonType::RescueTeam.spec_abilities().len() == 1,
        PersonType::RescueTeam.spec_abilities()[0].spec_cost() == 0,
        PersonType::Vanguard.spec_abilities().len() == 1,
        PersonType::Vanguard.spec_abilities()[0].spec_cost() == 1,
        PersonType::Assassin.spec_abilities().len() == 1,
        PersonType::Assassin.spec_abilities()[0].spec_cost() == 2,
        PersonType::Pyromaniac.spec_abilities().len() == 1,
        PersonType::Pyromaniac.spec_abilities()[0].spec_cost() == 1,
        PersonType::Scout.spec_abilities().len() == 1,
        PersonType::Scout.spec_abilities()[0].spec_cost() == 1,
        PersonType::WoundedSoldier.spec_abilities().len() == 1,
        PersonType::WoundedSoldier.spec_abilities()[0].spec_cost() == 1,
        PersonType::Muse.spec_abilities().len() == 1,
        PersonType::Muse.spec_abilities()[0].spec_cost() == 0,
        PersonType::Doomsayer.spec_abilities().len() == 1,
        PersonType::Doomsayer.spec_abilities()[0].spec_cost() == 1,
        PersonType::Exterminator.spec_abilities().len() == 1,
        PersonType::Exterminator.spec_abilities()[0].spec_cost() == 1,
        PersonType::ArgoYesky.spec_abilities().len() == 1,
        PersonType::ArgoYesky.spec_abilities()[0].spec_cost() == 1,
        PersonType::MagnusKarv.spec_abilities().len() == 1,
        PersonType::MagnusKarv.spec_abilities()[0].spec_cost() == 2,
        PersonType::MolgurStang.spec_abilities().len() == 1,
        PersonType::MolgurStang.spec_abilities()[0].spec_cost() == 1,
        CampType::Outpost.spec_abilities().len() == 2,
        CampType::Outpost.spec_abilities()[0].spec_cost() == 2,
        CampType::Outpost.spec_abilities()[1].spec_cost() == 2,
        CampType::Railgun.spec_abilities().len() == 1,
        CampType::Railgun.spec_abilities()[0].spec_cost() == 2,
        CampType::VictoryTotem.spec_abilities().len() == 2,
        CampType::VictoryTotem.spec_abilities()[0].spec_cost() == 2,
        CampType::VictoryTotem.spec_abilities()[1].spec_cost() == 2,
        CampType::ScudLauncher.spec_abilities().len() == 1,
        CampType::ScudLauncher.spec_abilities()[0].spec_cost() == 1,
        CampType::Cannon.spec_abilities().len() == 1,
        CampType::Cannon.spec_abilities()[0].spec_cost() == 1,
        CampType::Garage.spec_abilities().len() == 1,
        CampType::Garage.spec_abilities()[0].spec_cost() == 1,
{
}

/// What the card text of each custom ability needs, besides its water cost: Doomsayer's damage
/// needs an event in the opponent's queue; Exterminator's needs an injured enemy person;
/// Gunner's and Assassin's need an enemy person; Rabble Rouser's damage needs a punk of one's
/// own; Pyromaniac's needs an enemy camp that is not destroyed and has no person in front of it;
/// every other custom ability can always be used.
pub proof fn lemma_custom_ability_conditions(gs: GameState, p: Player, c: CustomAbility)
    ensures
        ({
            let me = gs.spec_player(p);
            let them = gs.spec_player(p.spec_other());
            Ability::Custom(c).spec_can_perform(gs, p) <==> match c {
                CustomAbility::Doomsayer => exists|i: int| 0 <= i < 3 && #[trigger] them.events[i] is Some,
                CustomAbility::Exterminator => exists|i: int|
                    0 <= i < them.spec_people().len() && #[trigger] them.spec_people()[i].spec_is_injured(),
                CustomAbility::Gunner | CustomAbility::Assassin => them.spec_people().len() > 0,
                CustomAbility::RabbleRouserDamage => exists|i: int|
                    0 <= i < me.spec_people().len() && #[trigger] me.spec_people()[i] is Punk,
                CustomAbility::Pyromaniac => exists|k: int|
                    0 <= k < 3 && (#[trigger] them.columns[k]).camp.status != CampStatus::Destroyed
                        && them.columns[k].person_slots[0] is None && them.columns[k].person_slots[1] is None,
                _ => true,
            }
        }),
{
    let them = gs.spec_player(p.spec_other());
    if c == CustomAbility::Pyromaniac {
        let locs = them.spec_unprotected_card_locs();
        them.lemma_unprotected_card_locs();
        them.lemma_unprotected_cards_have_nothing_in_front();
        if exists|i: int| 0 <= i < locs.len() && (#[trigger] locs[i]).1 == 0 {
            let i = choose|i: int| 0 <= i < locs.len() && (#[trigger] locs[i]).1 == 0;
            let k = locs[i].0 as int;
            assert(them.spec_has_card(k, 0));
            assert(locs.contains((k as nat, 0nat)));
            assert(them.columns[k].camp.status != CampStatus::Destroyed);
            assert(them.columns[k].person_slots[0] is None && them.columns[k].person_slots[1] is None);
        }
        if exists|k: int|
            0 <= k < 3 && (#[trigger] them.columns[k]).camp.status != CampStatus::Destroyed
                && them.columns[k].person_slots[0] is None && them.columns[k].person_slots[1] is None {
            let k = choose|k: int|
                0 <= k < 3 && (#[trigger] them.columns[k]).camp.status != CampStatus::Destroyed
                    && them.columns[k].person_slots[0] is None && them.columns[k].person_slots[1] is None;
            assert(them.spec_has_card(k, 0));
            assert(locs.contains((k as nat, 0nat)));
            let i = choose|i: int| 0 <= i < locs.len() && locs[i] == (k as nat, 0nat);
            assert(locs[i].1 == 0);
        }
    }
}

/// The steps that an ability leaves to run after its first choice.
pub open spec fn ability_steps(ability: Ability, player: Player, card_loc: CardLocation) -> Seq<Step> {
    match ability {
        Ability::Custom(CustomAbility::CultLeader) => seq![Step::DamageEnemy(player)],
        Ability::Custom(CustomAbility::Looter) => seq![Step::DrawIfCamp(player)],
        Ability::Custom(CustomAbility::Mutant) => seq![Step::DamageCard(card_loc), Step::OfferRestore(player)],
        Ability::Custom(CustomAbility::Vanguard) => seq![Step::DamageEnemy(player.spec_other())],
        _ => Seq::empty(),
    }
}

/// The columns of a board that hold a card.
pub open spec fn nonempty_columns(gs: GameState, owner: Player) -> Seq<nat> {
    let ps = gs.spec_player(owner);
    super::player_state::if_seq(!ps.columns[0].spec_is_empty(), 0nat) + super::player_state::if_seq(
        !ps.columns[1].spec_is_empty(),
        1nat,
    ) + super::player_state::if_seq(!ps.columns[2].spec_is_empty(), 2nat)
}

/// One card of Scientist's ability: the top card of the deck is drawn (see [`draw_outcome`]) and
/// discarded, and its junk effect joins the offered effects when the player can perform it and
/// it is not offered yet; the game ends when no card can be drawn.
pub open spec fn scientist_card(
    old: GameState,
    new: GameState,
    player: Player,
    before: Seq<IconEffect>,
    after: Seq<IconEffect>,
    r: Result<(), GameResult>,
) -> bool {
    exists|drawn: GameState, d: Result<PersonOrEventType, GameResult>|
        #![trigger draw_outcome(old, drawn, d)]
        {
            &&& draw_outcome(old, drawn, d)
            &&& drawn.player1 == old.player1
            &&& drawn.player2 == old.player2
            &&& drawn.cur_player == old.cur_player
            &&& drawn.cur_player_water == old.cur_player_water
            &&& drawn.has_paid_to_draw == old.has_paid_to_draw
            &&& drawn.has_played_event == old.has_played_event
            &&& match d {
                Err(e) => new == drawn && after == before && r == Err::<(), GameResult>(e),
                Ok(card) => {
                    let effect = card.spec_junk_effect();
                    &&& new.discard@ == drawn.discard@.push(card)
                    &&& new == GameState { discard: new.discard, ..drawn }
                    &&& after == if new.spec_effect_can_perform(player, effect) && !before.contains(effect) {
                        before.push(effect)
                    } else {
                        before
                    }
                    &&& r is Ok
                },
            }
        }
}

/// Scientist's ability: three cards are drawn and discarded in turn (see [`scientist_card`]),
/// and the player is offered the effects collected, or nothing when there are none.
pub open spec fn scientist_outcome(old: GameState, new: GameState, player: Player, f: ChoiceFuture) -> bool {
    exists|s1: GameState, s2: GameState, e1: Seq<IconEffect>, e2: Seq<IconEffect>, e3: Seq<IconEffect>|
        #![trigger scientist_card(old, s1, player, Seq::empty(), e1, Ok::<(), GameResult>(())), scientist_card(s1, s2, player, e1, e2, Ok::<(), GameResult>(())), scientist_card(s2, new, player, e2, e3, Ok::<(), GameResult>(()))]
        {
            &&& scientist_card(old, s1, player, Seq::empty(), e1, Ok::<(), GameResult>(()))
            &&& scientist_card(s1, s2, player, e1, e2, Ok::<(), GameResult>(()))
            &&& scientist_card(s2, new, player, e2, e3, Ok::<(), GameResult>(()))
            &&& e3.len() == 0 ==> f == ChoiceFuture::Immediate(None)
            &&& e3.len() > 0 ==> (f matches ChoiceFuture::Pending(Choice::IconEffect(c)) && c.chooser == player
                && c.effects@ == e3 && c.next_steps@.len() == 0)
        }
}

/// What performing a custom ability does, before the steps it leaves.
pub open spec fn custom_outcome(
    old: GameState,
    new: GameState,
    player: Player,
    c: CustomAbility,
    card_loc: CardLocation,
    f: ChoiceFuture,
) -> bool {
    let other = player.spec_other();
    match c {
        CustomAbility::CultLeader => new == old && is_damage_future(f, player, true, player, person_card_locs(old.spec_player(player))),
        CustomAbility::Gunner => f == ChoiceFuture::Immediate(None) && injured_all(old, new, player),
        CustomAbility::RabbleRouserDamage | CustomAbility::Looter | CustomAbility::Vanguard
        | CustomAbility::Doomsayer => new == old && is_damage_future(f, player, false, other, old.spec_player(other).spec_unprotected_card_locs()),
        CustomAbility::Sniper => new == old && is_damage_future(f, player, false, other, old.spec_player(other).spec_card_locs()),
        CustomAbility::Scientist => {
            &&& new.player1 == old.player1
            &&& new.player2 == old.player2
            &&& new.cur_player == old.cur_player
            &&& new.cur_player_water == old.cur_player_water
            &&& new.has_paid_to_draw == old.has_paid_to_draw
            &&& new.has_played_event == old.has_played_event
            &&& scientist_outcome(old, new, player, f)
        },
        CustomAbility::Mutant => {
            &&& new == old
            &&& f is Pending
            &&& f->Pending_0 is IconEffect
            &&& f->Pending_0->IconEffect_0.chooser == player
            &&& f->Pending_0->IconEffect_0.effects@ == seq![IconEffect::Damage]
        },
        CustomAbility::RescueTeam => {
            &&& new == old
            &&& old.spec_player(player).spec_people().len() == 0 ==> f == ChoiceFuture::Immediate(None)
            &&& old.spec_player(player).spec_people().len() > 0 ==> {
                &&& f is Pending
                &&& f->Pending_0 is RescuePerson
                &&& f->Pending_0->RescuePerson_0.chooser == player
                &&& play_loc_pairs(f->Pending_0->RescuePerson_0.locations@) == old.spec_player(player).spec_person_locs()
            }
        },
        CustomAbility::Assassin => new == old && is_damage_future(f, player, true, other, old.spec_player(other).spec_unprotected_person_locs()),
        CustomAbility::Pyromaniac => new == old && is_damage_future(f, player, false, other, unprotected_camp_locs(old.spec_player(other))),
        CustomAbility::Exterminator => {
            let targets = old.spec_player(other).spec_injured_person_locs();
            &&& f == ChoiceFuture::Immediate(None)
            &&& new.card_total() == old.card_total()
            &&& same_but_columns(old, new)
            &&& forall|k: int| 0 <= k < 3 ==> #[trigger] new.spec_player(other).columns[k]
                == super::column_shifted(column_hit(old.spec_player(other).columns[k], |r: int| targets.contains((k as nat, r as nat)), true))
            &&& new.discard@ == old.discard@ + discards_for_pairs(old, other, targets, true)
        },
        CustomAbility::MagnusKarv => {
            &&& new == old
            &&& nonempty_columns(old, other).len() == 0 ==> f == ChoiceFuture::Immediate(None)
            &&& nonempty_columns(old, other).len() > 0 ==> {
                &&& f is Pending
                &&& f->Pending_0 is DamageColumn
                &&& f->Pending_0->DamageColumn_0.chooser == player
                &&& f->Pending_0->DamageColumn_0.columns@.map_values(|c: ColumnIndex| c.index()) == nonempty_columns(old, other)
            }
        },
        CustomAbility::MolgurStang => new == old && is_damage_future(f, player, true, other, intact_camp_locs(old.spec_player(other))),
        CustomAbility::ScudLauncher => new == old && is_damage_future(f, other, false, other, old.spec_player(other).spec_card_locs()),
        CustomAbility::Cannon => exists|mid: GameState|
            #![trigger damage_outcome(old, mid, card_loc, false, false, Ok::<(), GameResult>(()))]
            {
                &&& damage_outcome(old, mid, card_loc, false, false, Ok::<(), GameResult>(()))
                &&& effect_outcome(mid, new, player, IconEffect::Damage, Ok::<ChoiceFuture, GameResult>(f))
            },
    }
}

impl Ability {
    /// Performs this ability for the player, whose card (using the ability) is at `card_loc`.
    /// Returns what must be chosen first, and the steps to run after it (the last one first).
    pub fn perform(self, gs: &mut GameState, player: Player, card_loc: CardLocation) -> (r: Result<
        (ChoiceFuture, Vec<Step>),
        GameResult,
    >)
        requires
            old(gs).wf(),
            self.spec_perform_ok(*old(gs), player),
            self == Ability::Custom(CustomAbility::Cannon) ==> old(gs).has_card_at(card_loc)
                && card_loc.spec_player() == player,
        ensures
            final(gs).wf(),
            final(gs).card_total() == old(gs).card_total(),
            r matches Ok((f, steps)) ==> {
                &&& f.valid_for(*final(gs))
                &&& f.held_cards() == 0
                &&& steps@ == ability_steps(self, player, card_loc)
            },
            match self {
                Ability::Icon { effect, .. } => effect_outcome(*old(gs), *final(gs), player, effect, match r {
                    Ok((f, _)) => Ok(f),
                    Err(e) => Err(e),
                }),
                Ability::Custom(c) => r matches Ok((f, _)) ==> custom_outcome(*old(gs), *final(gs), player, c, card_loc, f),
            },
    {
        match self {
            Ability::Icon { effect, .. } => {
                match effect.perform(gs, player) {
                    Ok(f) => Ok((f, Vec::new())),
                    Err(e) => Err(e),
                }
            },
            Ability::Custom(c) => {
                let f = c.perform(gs, player, card_loc)?;
                let steps = match c {
                    CustomAbility::CultLeader => vec![Step::DamageEnemy(player)],
                    CustomAbility::Looter => vec![Step::DrawIfCamp(player)],
                    CustomAbility::Mutant => vec![Step::DamageCard(card_loc), Step::OfferRestore(player)],
                    CustomAbility::Vanguard => vec![Step::DamageEnemy(player.other())],
                    _ => Vec::new(),
                };
                assert(steps@ =~= ability_steps(self, player, card_loc));
                Ok((f, steps))
            },
        }
    }
}

impl CustomAbility {
    /// Performs this custom ability for the player, whose card is at `card_loc`, up to its
    /// first choice.
    #[verifier::rlimit(40)]
    pub fn perform(self, gs: &mut GameState, player: Player, card_loc: CardLocation) -> (r: Result<ChoiceFuture, GameResult>)
        requires
            old(gs).wf(),
            self == CustomAbility::Cannon ==> old(gs).has_card_at(card_loc) && card_loc.spec_player() == player,
        ensures
            final(gs).wf(),
            final(gs).card_total() == old(gs).card_total(),
            r matches Ok(f) ==> f.valid_for(*final(gs)) && f.held_cards() == 0 && custom_outcome(*old(gs), *final(gs), player, self, card_loc, f),
            r is Err ==> self == CustomAbility::Scientist || self == CustomAbility::Cannon,
    {
        let other = player.other();
        match self {
            CustomAbility::CultLeader => Ok(gs.destroy_own_person(player)),
            CustomAbility::Gunner => {
                gs.injure_all_unprotected_enemies(player);
                Ok(ChoiceFuture::Immediate(None))
            },
            CustomAbility::RabbleRouserDamage => Ok(gs.damage_enemy(player)),
            CustomAbility::Looter => Ok(gs.damage_enemy(player)),
            CustomAbility::Sniper => Ok(gs.damage_any_enemy(player)),
            CustomAbility::Scientist => scientist_discard(gs, player),
            CustomAbility::Mutant => {
                let effects = vec![IconEffect::Damage];
                assert(effects@ =~= seq![IconEffect::Damage]);
                Ok(ChoiceFuture::Pending(Choice::IconEffect(IconEffectChoice {
                    chooser: player,
                    effects,
                    next_steps: Vec::new(),
                })))
            },
            CustomAbility::RescueTeam => {
                let locations = gs.player(player).person_locs();
                proof {
                    gs.spec_player(player).lemma_person_locs();
                }
                if locations.len() == 0 {
                    Ok(ChoiceFuture::Immediate(None))
                } else {
                    let f = ChoiceFuture::Pending(Choice::RescuePerson(RescuePersonChoice { chooser: player, locations, next_steps: Vec::new() }));
                    proof {
                        let ch = f->Pending_0->RescuePerson_0;
                        let ps = gs.spec_player(player);
                        assert forall|i: int| 0 <= i < ch.locations@.len() implies person_at(ps, #[trigger] ch.locations@[i]) by {
                            assert(play_loc_pairs(ch.locations@)[i] == ps.spec_person_locs()[i]);
                        }
                    }
                    Ok(f)
                }
            },
            CustomAbility::Vanguard => Ok(gs.damage_enemy(player)),
            CustomAbility::Assassin => Ok(gs.destroy_enemy(player)),
            CustomAbility::Pyromaniac => Ok(gs.damage_unprotected_camp(player)),
            CustomAbility::Doomsayer => Ok(gs.damage_enemy(player)),
            CustomAbility::Exterminator => {
                gs.destroy_all_injured_enemies(player);
                Ok(ChoiceFuture::Immediate(None))
            },
            CustomAbility::MagnusKarv => {
                let ps = gs.player(other);
                let mut columns: Vec<ColumnIndex> = Vec::new();
                if !ps.columns[0].is_empty() {
                    columns.push(ColumnIndex::new(0));
                }
                if !ps.columns[1].is_empty() {
                    columns.push(ColumnIndex::new(1));
                }
                if !ps.columns[2].is_empty() {
                    columns.push(ColumnIndex::new(2));
                }
                assert(columns@.map_values(|c: ColumnIndex| c.index()) =~= nonempty_columns(*gs, other));
                if columns.len() == 0 {
                    Ok(ChoiceFuture::Immediate(None))
                } else {
                    let f = ChoiceFuture::Pending(Choice::DamageColumn(DamageColumnChoice { chooser: player, columns, next_steps: Vec::new() }));
                    proof {
                        let ch = f->Pending_0->DamageColumn_0;
                        assert forall|i: int| 0 <= i < ch.columns@.len() implies (#[trigger] ch.columns@[i]).index() < 3 by {
                            assert(ch.columns@.map_values(|c: ColumnIndex| c.index())[i] == ch.columns@[i].index());
                            super::player_state::lemma_if_seq3(!gs.spec_player(other).columns[0].spec_is_empty(), !gs.spec_player(other).columns[1].spec_is_empty(), !gs.spec_player(other).columns[2].spec_is_empty(), 0, 1, 2);
                        }
                    }
                    Ok(f)
                }
            },
            CustomAbility::MolgurStang => Ok(gs.destroy_enemy_camp(player)),
            CustomAbility::ScudLauncher => {
                let target_locs = locs_on_board(&gs.player(other).card_locs(), other);
                let f = super::choices::DamageChoice::future(other, false, target_locs);
                proof {
                    gs.spec_player(other).lemma_card_locs();
                    lemma_damage_future_valid(*gs, f, other, false, other, gs.spec_player(other).spec_card_locs());
                }
                Ok(f)
            },
            CustomAbility::Cannon => {
                let ghost s0 = *gs;
                let d = gs.damage_card_at(card_loc, false, false);
                match d {
                    Ok(()) => {},
                    Err(e) => {
                        return Err(e);
                    },
                }
                let ghost mid = *gs;
                assert(damage_outcome(s0, mid, card_loc, false, false, Ok::<(), GameResult>(())));
                IconEffect::Damage.perform(gs, player)
            },
        }
    }
}

/// Whether `m` cards can be drawn and discarded one after the other before the game ends: the
/// deck holds them, or the discard pile has not been shuffled back yet, and once the deck runs
/// out it holds what it held plus the deck's cards discarded meanwhile, one of which is drawn at
/// once.
pub open spec fn can_draw_and_discard(gs: GameState, m: nat) -> bool {
    ||| gs.deck@.len() >= m
    ||| !gs.has_reshuffled_deck && gs.discard@.len() + 2 * gs.deck@.len() >= m
}

/// Drawing a card and discarding it: the draw fails, with a tie, only where not even one card
/// can be drawn and discarded; after a draw that succeeds, `m - 1` more can be drawn and
/// discarded exactly when `m` could before.
proof fn lemma_draw_and_discard_step(
    old: GameState,
    drawn: GameState,
    new: GameState,
    d: Result<PersonOrEventType, GameResult>,
    m: nat,
)
    requires
        m >= 1,
        draw_outcome(old, drawn, d),
        d is Ok ==> {
            &&& new.deck@ == drawn.deck@
            &&& new.discard@ == drawn.discard@.push(d->Ok_0)
            &&& new.has_reshuffled_deck == drawn.has_reshuffled_deck
        },
    ensures
        d is Err ==> !can_draw_and_discard(old, m) && d == Err::<PersonOrEventType, GameResult>(GameResult::Tie),
        d is Ok ==> (can_draw_and_discard(old, m) <==> can_draw_and_discard(new, (m - 1) as nat)),
{
    super::lemma_draw_step(old, drawn, d);
}

/// Scientist's ability: discards the top 3 cards of the deck and offers the player the
/// performable junk effects among them, each once.
fn scientist_discard(gs: &mut GameState, player: Player) -> (r: Result<ChoiceFuture, GameResult>)
    requires
        old(gs).wf(),
    ensures
        final(gs).wf(),
        final(gs).card_total() == old(gs).card_total(),
        final(gs).player1 == old(gs).player1,
        final(gs).player2 == old(gs).player2,
        final(gs).cur_player == old(gs).cur_player,
        final(gs).cur_player_water == old(gs).cur_player_water,
        final(gs).has_paid_to_draw == old(gs).has_paid_to_draw,
        final(gs).has_played_event == old(gs).has_played_event,
        r is Ok <==> can_draw_and_discard(*old(gs), 3),
        r is Err ==> r == Err::<ChoiceFuture, GameResult>(GameResult::Tie),
        r matches Ok(f) ==> {
            &&& f.valid_for(*final(gs))
            &&& f.held_cards() == 0
            &&& scientist_outcome(*old(gs), *final(gs), player, f)
        },
{
    let ghost s0 = *gs;
    let mut effects: Vec<IconEffect> = Vec::new();
    let ghost mut states: Seq<GameState> = seq![s0];
    let ghost mut effs: Seq<Seq<IconEffect>> = seq![Seq::empty()];
    let mut n: usize = 0;
    while n < 3
        invariant
            n <= 3,
            s0 == *old(gs),
            gs.wf(),
            gs.card_total() == s0.card_total(),
            gs.player1 == s0.player1,
            gs.player2 == s0.player2,
            gs.cur_player == s0.cur_player,
            gs.cur_player_water == s0.cur_player_water,
            gs.has_paid_to_draw == s0.has_paid_to_draw,
            gs.has_played_event == s0.has_played_event,
            effects@.no_duplicates(),
            effects@.len() <= n,
            forall|i: int| 0 <= i < effects@.len() ==> gs.spec_effect_ok(player, #[trigger] effects@[i]),
            states.len() == n + 1,
            effs.len() == n + 1,
            states[0] == s0,
            states[n as int] == *gs,
            effs[0] == Seq::<IconEffect>::empty(),
            effs[n as int] == effects@,
            forall|k: int| 0 <= k < n ==> #[trigger] scientist_card(states[k], states[k + 1], player, effs[k], effs[k + 1], Ok::<(), GameResult>(())),
            can_draw_and_discard(*gs, (3 - n) as nat) == can_draw_and_discard(s0, 3),
        decreases 3 - n,
    {
        let ghost before = *gs;
        let ghost effects_before = effects@;
        // draw a card, propagating any end-game condition
        let drawn = gs.draw_card();
        let ghost after_draw = *gs;
        assert(draw_outcome(before, after_draw, drawn));
        proof {
            if drawn is Err {
                lemma_draw_and_discard_step(before, after_draw, after_draw, drawn, (3 - n) as nat);
            }
        }
        let card = match drawn {
            Ok(c) => c,
            Err(e) => {
                return Err(e);
            },
        };
        proof {
            if before.deck@.len() == 0 {
                assert(gs.deck@.push(card).to_multiset().len() == before.discard@.to_multiset().len());
            }
        }
        // discard the card
        gs.discard.push(card);
        assert(super::piles_wf(*gs));
        assert(*gs == GameState { discard: gs.discard, ..after_draw });
        proof {
            lemma_draw_and_discard_step(before, after_draw, *gs, drawn, (3 - n) as nat);
        }
        // keep the card's junk effect if it can be performed
        let effect = card.junk_effect();
        if effect.can_perform(gs, player) {
            let mut seen = false;
            let mut i: usize = 0;
            while i < effects.len()
                invariant
                    i <= effects@.len(),
                    seen == exists|j: int| 0 <= j < i && effects@[j] == effect,
                decreases effects@.len() - i,
            {
                if effects[i] == effect {
                    seen = true;
                }
                i += 1;
            }
            if !seen {
                effects.push(effect);
            }
        }
        proof {
            assert(effects@ == if gs.spec_effect_can_perform(player, effect) && !effects_before.contains(effect) {
                effects_before.push(effect)
            } else {
                effects_before
            });
            assert(scientist_card(before, *gs, player, effects_before, effects@, Ok::<(), GameResult>(())));
            states = states.push(*gs);
            effs = effs.push(effects@);
        }
        n += 1;
    }
    proof {
        assert(scientist_card(states[0], states[1], player, effs[0], effs[1], Ok::<(), GameResult>(())));
        assert(scientist_card(states[1], states[2], player, effs[1], effs[2], Ok::<(), GameResult>(())));
        assert(scientist_card(states[2], states[3], player, effs[2], effs[3], Ok::<(), GameResult>(())));
    }
    if effects.len() == 0 {
        Ok(ChoiceFuture::Immediate(None))
    } else {
        Ok(ChoiceFuture::Pending(Choice::IconEffect(IconEffectChoice { chooser: player, effects, next_steps: Vec::new() })))
    }
}

} // verus!
