//! The receipt printed for a player.
use vstd::prelude::*;
use crate::spaceship_settings::SpaceshipSettingValue;
use crate::text::{decimal, is_decimal_of, lemma_decimal_is_decimal_of, u32_to_string};

verus! {

/// A player's nickname and settings.
pub struct PlayerSettings {
    pub nickname: String,
    pub setting_values: [SpaceshipSettingValue; 4],
}

/// The text lines of the receipt, between the logo and the space invader.
pub open spec fn receipt_lines(nickname: Seq<char>, values: Seq<SpaceshipSettingValue>) -> Seq<Seq<char>> {
    seq![
        "----------------------------------"@,
        "|          SPACE INVADERS        |"@,
        "----------------------------------"@,
        Seq::empty(),
        "Nickname: "@ + nickname,
        Seq::empty(),
        "Stats:"@,
        "* Rate of fire: "@ + decimal(values[0].value as nat),
        "* Shield strength: "@ + decimal(values[1].value as nat),
        "* Defense thickness: "@ + decimal(values[2].value as nat),
        "* Dodging chance: "@ + decimal(values[3].value as nat),
        Seq::empty(),
        "Good luck!"@,
    ]
}

fn labelled(label: &str, value: u32) -> (r: String)
    ensures
        r@ == label@ + decimal(value as nat),
{
    let mut r = String::from_str(label);
    r.append(u32_to_string(value).as_str());
    r
}

/// The text lines of the receipt for `player_settings`.
pub fn receipt_text(player_settings: &PlayerSettings) -> (r: Vec<String>)
    ensures
        r.deep_view() == receipt_lines(player_settings.nickname@, player_settings.setting_values@),
{
    let values = &player_settings.setting_values;
    let mut nickname = String::from_str("Nickname: ");
    nickname.append(player_settings.nickname.as_str());
    let mut lines: Vec<String> = Vec::new();
    lines.push(String::from_str("----------------------------------"));
    lines.push(String::from_str("|          SPACE INVADERS        |"));
    lines.push(String::from_str("----------------------------------"));
    lines.push(String::new());
    lines.push(nickname);
    lines.push(String::new());
    lines.push(String::from_str("Stats:"));
    lines.push(labelled("* Rate of fire: ", values[0].value));
    lines.push(labelled("* Shield strength: ", values[1].value));
    lines.push(labelled("* Defense thickness: ", values[2].value));
    lines.push(labelled("* Dodging chance: ", values[3].value));
    lines.push(String::new());
    lines.push(String::from_str("Good luck!"));
    assert(lines.deep_view() =~= receipt_lines(player_settings.nickname@, player_settings.setting_values@));
    lines
}

/// `line` is `label` followed by the usual decimal text of `value`.
pub open spec fn shows_value(line: Seq<char>, label: Seq<char>, value: nat) -> bool {
    &&& line.len() > label.len()
    &&& line.take(label.len() as int) == label
    &&& is_decimal_of(line.skip(label.len() as int), value)
}

/// The receipt shows the player's whole nickname after "Nickname: ", and each
/// stats line shows its label followed by the decimal text of the points of
/// the setting at its position, whatever the points are.
pub proof fn lemma_receipt_shows_player(nickname: Seq<char>, values: Seq<SpaceshipSettingValue>)
    requires
        values.len() == 4,
    ensures
        ({
            let lines = receipt_lines(nickname, values);
            &&& lines.len() == 13
            &&& lines[4].take(10) == "Nickname: "@
            &&& lines[4].skip(10) == nickname
            &&& shows_value(lines[7], "* Rate of fire: "@, values[0].value as nat)
            &&& shows_value(lines[8], "* Shield strength: "@, values[1].value as nat)
            &&& shows_value(lines[9], "* Defense thickness: "@, values[2].value as nat)
            &&& shows_value(lines[10], "* Dodging chance: "@, values[3].value as nat)
        }),
{
    reveal_strlit("Nickname: ");
    let lines = receipt_lines(nickname, values);
    assert(lines[4].take(10) =~= "Nickname: "@);
    assert(lines[4].skip(10) =~= nickname);
    let labels = seq!["* Rate of fire: "@, "* Shield strength: "@, "* Defense thickness: "@, "* Dodging chance: "@];
    assert forall|i: int| 0 <= i < 4 implies shows_value(lines[7 + i], #[trigger] labels[i], values[i].value as nat) by {
        let v = values[i].value as nat;
        lemma_decimal_is_decimal_of(v);
        assert(lines[7 + i] == labels[i] + decimal(v));
        assert((labels[i] + decimal(v)).take(labels[i].len() as int) =~= labels[i]);
        assert((labels[i] + decimal(v)).skip(labels[i].len() as int) =~= decimal(v));
    }
    assert(labels[0] == "* Rate of fire: "@);
    assert(labels[1] == "* Shield strength: "@);
    assert(labels[2] == "* Defense thickness: "@);
    assert(labels[3] == "* Dodging chance: "@);
}

} // verus!
