use map_geometry::records::{
    Attribute, AttributeType, KillRewards, PlayerLevelMechanics, RangeType, Stat, StatusEffect,
    TargetMechanics, TargetType,
};

#[test]
fn attribute_holds_its_fields() {
    let a = Attribute {
        name: "Flame Burst".to_string(),
        description: "burns everything nearby".to_string(),
        types: vec![AttributeType::SetDamage, AttributeType::StatusEffect],
        target_mechanics: TargetMechanics { target_type: TargetType::Radius, count: 0 },
        status_effects: Some(vec![StatusEffect::Burn]),
    };
    assert_eq!(a.name, "Flame Burst");
    assert_eq!(a.types.len(), 2);
    assert!(matches!(a.types[1], AttributeType::StatusEffect));
    assert_eq!(a.target_mechanics, TargetMechanics { target_type: TargetType::Radius, count: 0 });
    assert_eq!(a.status_effects.as_ref().unwrap()[0], StatusEffect::Burn);
}

#[test]
fn value_records_compare_by_fields() {
    assert_eq!(KillRewards { coins: 5, xp: 12 }, KillRewards { coins: 5, xp: 12 });
    assert_ne!(KillRewards { coins: 5, xp: 12 }, KillRewards { coins: 5, xp: 13 });
    let lm = PlayerLevelMechanics {
        current_level: 3,
        next_level: 4,
        total_xp_earned: 150,
        level_up_xp_required: 60,
    };
    assert_eq!(lm, lm);
    assert!(matches!(RangeType::Melee, RangeType::Melee));
    assert!(matches!(Stat::HPRegen, Stat::HPRegen));
}
