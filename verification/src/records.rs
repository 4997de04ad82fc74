//! Gameplay content records: plain data schemas with no behavior of their
//! own. They consume `Point` values produced by the geometry pipeline but
//! contribute no algorithms; they are held here so collaborators share one
//! typed vocabulary for attributes, targeting, stats, rewards and levels.

use vstd::prelude::*;

verus! {

/// A list of all available status effects.
#[derive(Clone, Copy, Debug, PartialEq, Eq, Structural)]
pub enum StatusEffect {
    /// poisons the enemy and deals damage over time
    Toxic,
    /// burns the enemy and deals damage over time
    Burn,
    /// bleeds the enemy and deals damage over time
    Bleed,
    /// stuns the enemy, preventing them from moving
    Stun,
    /// blinds the enemy, reducing their accuracy
    Blind,
    /// gives resistance to any kind of attack
    Resilience,
    /// no status effect
    NoEffect,
}

/// A list of stats available within the game (limited to the player).
#[derive(Clone, Copy, Debug, PartialEq, Eq, Structural)]
pub enum Stat {
    HP,
    XP,
    Level,
    HPRegen,
    MovementSpeed,
}

/// A list of available range types for enemies, weapons and skills.
#[derive(Clone, Copy, Debug, PartialEq, Eq, Structural)]
pub enum RangeType {
    Melee,
    Ranged,
}

/// A list of available target types.
#[derive(Clone, Copy, Debug, PartialEq, Eq, Structural)]
pub enum TargetType {
    /// targets the user and/or their own team
    Ally,
    /// targets enemies only
    Enemy,
    /// targets an area of choice
    Radius,
    /// targets both enemies and allies
    Both,
    /// targets everyone and/or an area of choice
    All,
}

/// How an attribute's targeting works: its target type and how many targets
/// it can affect (zero for unbounded radius effects).
#[derive(Clone, Copy, Debug, PartialEq, Eq, Structural)]
pub struct TargetMechanics {
    pub target_type: TargetType,
    pub count: u8,
}

/// A list of all available attribute types.
#[derive(Clone, Copy, Debug, PartialEq, Eq, Structural)]
pub enum AttributeType {
    /// has a fixed amount of damage
    SetDamage,
    /// deals damage based on own hp
    OwnHPDamage,
    /// deals damage based on the enemy's hp
    EnemyHPDamage,
    /// has a fixed amount of healing
    SetHealing,
    /// heals based on own hp
    HPHealing,
    /// deals a status effect for its duration
    StatusEffect,
}

/// An attribute: a named characteristic of a skill or a weapon, with its
/// types, targeting and any inflicted status effects. Level mechanics are
/// kept separately.
#[derive(Clone, Debug, PartialEq)]
pub struct Attribute {
    pub name: String,
    pub description: String,
    pub types: Vec<AttributeType>,
    pub target_mechanics: TargetMechanics,
    pub status_effects: Option<Vec<StatusEffect>>,
}

/// The rewards for defeating an enemy: coins and experience points.
#[derive(Clone, Copy, Debug, PartialEq, Eq, Structural)]
pub struct KillRewards {
    pub coins: u16,
    pub xp: u16,
}

/// A list of available item types.
#[derive(Clone, Copy, Debug, PartialEq, Eq, Structural)]
pub enum ItemType {
    Damage,
    Healing,
    StatusEffect,
    GainXP,
    GainCoins,
    MiscCurrency,
    StatBoost,
}

/// A list of available skill types.
#[derive(Clone, Copy, Debug, PartialEq, Eq, Structural)]
pub enum SkillType {
    Damaging,
    NonDamaging,
}

/// A list of available skill modifier types.
#[derive(Clone, Copy, Debug, PartialEq, Eq, Structural)]
pub enum SkillModifierType {
    /// the modifier is a percentage
    Percentage,
    /// the modifier is a plain number
    Number,
}

/// A list of all available weapon rarities.
#[derive(Clone, Copy, Debug, PartialEq, Eq, Structural)]
pub enum WeaponRarity {
    Common,
    Uncommon,
    Rare,
    Epic,
    Legendary,
}

/// A list of available weapon attribute modifier types.
#[derive(Clone, Copy, Debug, PartialEq, Eq, Structural)]
pub enum WeaponAttributeModifierType {
    /// the modifier is a percentage
    Percentage,
    /// the modifier is a plain number
    Number,
}

/// The player's level mechanics: current and next level, experience earned
/// so far, and the experience still required to level up.
#[derive(Clone, Copy, Debug, PartialEq, Eq, Structural)]
pub struct PlayerLevelMechanics {
    pub current_level: u8,
    pub next_level: u8,
    pub total_xp_earned: u32,
    pub level_up_xp_required: u32,
}

} // verus!
