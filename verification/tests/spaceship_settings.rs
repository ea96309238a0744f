use spaceship_menu::spaceship_settings::{SpaceshipSetting, SpaceshipSettingValue};
use spaceship_menu::text_scene::cost_calculator::calculate_cost;

#[test]
fn test_count() {
    assert_eq!(4, SpaceshipSetting::count());
}

#[test]
fn assert_from_to_index() {
    for i in 0..4 {
        let thing = SpaceshipSetting::from_index(i);
        let res = thing.to_index();
        assert_eq!(i, res);
    }
}

#[test]
fn large_index_gives_last_setting() {
    assert_eq!(SpaceshipSetting::from_index(4), SpaceshipSetting::DodgeChance);
    assert_eq!(SpaceshipSetting::from_index(usize::MAX), SpaceshipSetting::DodgeChance);
}

#[test]
fn setting_round_trip_from_setting() {
    for s in [
        SpaceshipSetting::Shields,
        SpaceshipSetting::Firepower,
        SpaceshipSetting::DefenseThickness,
        SpaceshipSetting::DodgeChance,
    ] {
        assert_eq!(SpaceshipSetting::from_index(s.to_index()), s);
    }
}

#[test]
fn setting_names() {
    assert_eq!(SpaceshipSetting::Shields.name(), "Shields");
    assert_eq!(SpaceshipSetting::Firepower.name(), "Firepower");
    assert_eq!(SpaceshipSetting::DefenseThickness.name(), "DefenseThickness");
    assert_eq!(SpaceshipSetting::DodgeChance.name(), "DodgeChance");
}

#[test]
fn defaults_and_new() {
    assert_eq!(SpaceshipSetting::default(), SpaceshipSetting::Shields);
    let v = SpaceshipSettingValue::default();
    assert_eq!(v.setting, SpaceshipSetting::Shields);
    assert_eq!(v.value, 0);
    let w = SpaceshipSettingValue::new(SpaceshipSetting::DodgeChance);
    assert_eq!(w.setting, SpaceshipSetting::DodgeChance);
    assert_eq!(w.value, 0);
}

#[test]
fn cost_of_shields_is_points_plus_one() {
    let v = SpaceshipSettingValue { setting: SpaceshipSetting::Shields, value: 7 };
    assert_eq!(calculate_cost(&v), 8);
    let z = SpaceshipSettingValue { setting: SpaceshipSetting::Shields, value: 0 };
    assert_eq!(calculate_cost(&z), 1);
}

#[test]
fn cost_of_other_settings_is_one() {
    for s in [SpaceshipSetting::Firepower, SpaceshipSetting::DefenseThickness, SpaceshipSetting::DodgeChance] {
        let v = SpaceshipSettingValue { setting: s, value: 9 };
        assert_eq!(calculate_cost(&v), 1);
    }
}
