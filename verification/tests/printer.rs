use spaceship_menu::printer::{receipt_text, PlayerSettings};
use spaceship_menu::spaceship_settings::{SpaceshipSetting, SpaceshipSettingValue};

#[test]
fn receipt_lines_for_a_player() {
    let player = PlayerSettings {
        nickname: String::from("Bad Man 2"),
        setting_values: [
            SpaceshipSettingValue { setting: SpaceshipSetting::Shields, value: 1 },
            SpaceshipSettingValue { setting: SpaceshipSetting::Firepower, value: 2 },
            SpaceshipSettingValue { setting: SpaceshipSetting::DefenseThickness, value: 3 },
            SpaceshipSettingValue { setting: SpaceshipSetting::DodgeChance, value: 40 },
        ],
    };
    let expected = vec![
        "----------------------------------",
        "|          SPACE INVADERS        |",
        "----------------------------------",
        "",
        "Nickname: Bad Man 2",
        "",
        "Stats:",
        "* Rate of fire: 1",
        "* Shield strength: 2",
        "* Defense thickness: 3",
        "* Dodging chance: 40",
        "",
        "Good luck!",
    ];
    assert_eq!(receipt_text(&player), expected);
}
