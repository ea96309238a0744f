use spaceship_menu::execut_api::parse_taken_nicknames;
use spaceship_menu::execut_http_client::{get_endpoint, setting_to_key, to_map};
use spaceship_menu::spaceship_settings::{SpaceshipSetting, SpaceshipSettingValue};

/// The dummy form lists five settings: every index from 3 on reads as the
/// last setting, so it is listed twice.
const SETTING_COUNT: usize = 5;

#[test]
fn execut_http_client_test_string_deserialization() {
    let deserialized: Vec<String> = parse_taken_nicknames("[\"piet\", \"klaas\"]").unwrap();
    let expected: Vec<String> = vec![String::from("piet"), String::from("klaas")];
    assert_eq!(expected, deserialized);
}

fn get_dummy_spaceship_setting_values() -> [SpaceshipSettingValue; SETTING_COUNT] {
    let thing = [
        SpaceshipSettingValue::new(SpaceshipSetting::from_index(0)),
        SpaceshipSettingValue::new(SpaceshipSetting::from_index(1)),
        SpaceshipSettingValue::new(SpaceshipSetting::from_index(2)),
        SpaceshipSettingValue::new(SpaceshipSetting::from_index(3)),
        SpaceshipSettingValue::new(SpaceshipSetting::from_index(4)),
    ];
    return thing;
}

#[test]
fn test_setting_to_key() {
    for i in 0..SETTING_COUNT {
        let setting = SpaceshipSetting::from_index(i);
        let expected = format!("settings_{}", setting.name());
        // act
        let key = setting_to_key(setting);
        // assert
        assert_eq!(expected, key);
    }
}

#[test]
fn test_to_map() {
    let nickname: String = "pietje".to_string();
    let settings: [SpaceshipSettingValue; SETTING_COUNT] = get_dummy_spaceship_setting_values();
    // act
    let map = to_map(nickname, settings);
    // assert
    assert!(map.contains_key("nickname"));
    match map.get("nickname") {
        Some(nickname) => assert_eq!("pietje", nickname.as_str()),
        None => assert!(false, "could not get nickname from map"),
    }
    for i in 0..SETTING_COUNT {
        let key = setting_to_key(SpaceshipSetting::from_index(i));
        assert!(map.contains_key(&key), "map did not contain key {}", key);
        match map.get(&key) {
            Some(value) => assert_eq!("0", value.as_str()),
            None => assert!(false, "could not get value from map"),
        }
    }
}

#[test]
fn to_map_keeps_first_value_of_a_setting() {
    let settings = [
        SpaceshipSettingValue { setting: SpaceshipSetting::Firepower, value: 12 },
        SpaceshipSettingValue { setting: SpaceshipSetting::Shields, value: 3 },
        SpaceshipSettingValue { setting: SpaceshipSetting::Firepower, value: 99 },
    ];
    let map = to_map(String::from("x"), settings);
    assert_eq!(map.len(), 3);
    assert_eq!(map.get("settings_Firepower").map(|s| s.as_str()), Some("12"));
    assert_eq!(map.get("settings_Shields").map(|s| s.as_str()), Some("3"));
    assert_eq!(map.get("settings_DodgeChance"), None);
    let mut entries = map.into_entries();
    entries.sort();
    assert_eq!(
        entries,
        vec![
            (String::from("nickname"), String::from("x")),
            (String::from("settings_Firepower"), String::from("12")),
            (String::from("settings_Shields"), String::from("3")),
        ]
    );
}

#[test]
fn endpoint_of_new_player() {
    assert_eq!(get_endpoint("new-player"), "http://localhost:4444/new-player");
}
