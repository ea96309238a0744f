//! The four spaceship settings a player spends points on.
use vstd::prelude::*;

verus! {

/// A spaceship setting.
#[derive(Clone, Copy, Debug, PartialEq, Eq, Structural)]
pub enum SpaceshipSetting {
    Shields,
    Firepower,
    DefenseThickness,
    DodgeChance,
}

/// The number of settings.
pub open spec fn setting_count() -> nat {
    4
}

/// The setting at position `index`; every index from 3 on names the last one.
pub open spec fn setting_at(index: int) -> SpaceshipSetting {
    if index == 0 {
        SpaceshipSetting::Shields
    } else if index == 1 {
        SpaceshipSetting::Firepower
    } else if index == 2 {
        SpaceshipSetting::DefenseThickness
    } else {
        SpaceshipSetting::DodgeChance
    }
}

/// The position of a setting.
pub open spec fn index_of(setting: SpaceshipSetting) -> nat {
    match setting {
        SpaceshipSetting::Shields => 0,
        SpaceshipSetting::Firepower => 1,
        SpaceshipSetting::DefenseThickness => 2,
        SpaceshipSetting::DodgeChance => 3,
    }
}

/// The name of a setting.
pub open spec fn setting_name(setting: SpaceshipSetting) -> Seq<char> {
    match setting {
        SpaceshipSetting::Shields => "Shields"@,
        SpaceshipSetting::Firepower => "Firepower"@,
        SpaceshipSetting::DefenseThickness => "DefenseThickness"@,
        SpaceshipSetting::DodgeChance => "DodgeChance"@,
    }
}

impl Default for SpaceshipSetting {
    fn default() -> (r: Self)
        ensures
            r == SpaceshipSetting::Shields,
    {
        SpaceshipSetting::Shields
    }
}

impl SpaceshipSetting {
    /// The setting at position `index` (0 to 3); larger indices give
    /// `DodgeChance`.
    pub fn from_index(index: usize) -> (r: Self)
        ensures
            r == setting_at(index as int),
    {
        let output = match index {
            0 => SpaceshipSetting::Shields,
            1 => SpaceshipSetting::Firepower,
            2 => SpaceshipSetting::DefenseThickness,
            _ => SpaceshipSetting::DodgeChance,
        };
        output
    }

    /// The position of this setting (0 to 3).
    pub fn to_index(&self) -> (r: usize)
        ensures
            r == index_of(*self),
    {
        match self {
            SpaceshipSetting::Shields => 0,
            SpaceshipSetting::Firepower => 1,
            SpaceshipSetting::DefenseThickness => 2,
            SpaceshipSetting::DodgeChance => 3,
        }
    }

    /// How many settings there are.
    pub fn count() -> (r: usize)
        ensures
            r == setting_count(),
    {
        4
    }

    /// The name of this setting.
    pub fn name(&self) -> (r: &str)
        ensures
            r@ == setting_name(*self),
    {
        match self {
            SpaceshipSetting::Shields => "Shields",
            SpaceshipSetting::Firepower => "Firepower",
            SpaceshipSetting::DefenseThickness => "DefenseThickness",
            SpaceshipSetting::DodgeChance => "DodgeChance",
        }
    }
}

/// Position then setting gives back the position, for every position below
/// the number of settings.
pub proof fn lemma_index_round_trip(index: int)
    requires
        0 <= index < setting_count(),
    ensures
        index_of(setting_at(index)) == index,
{
}

/// Setting then position gives back the setting, and every position is below
/// the number of settings.
pub proof fn lemma_setting_round_trip(setting: SpaceshipSetting)
    ensures
        setting_at(index_of(setting) as int) == setting,
        index_of(setting) < setting_count(),
{
}

/// No two settings have the same name.
pub proof fn lemma_names_distinct(a: SpaceshipSetting, b: SpaceshipSetting)
    requires
        a != b,
    ensures
        setting_name(a) != setting_name(b),
{
    reveal_strlit("Shields");
    reveal_strlit("Firepower");
    reveal_strlit("DefenseThickness");
    reveal_strlit("DodgeChance");
    assert(setting_name(a).len() != setting_name(b).len() || setting_name(a)[0] != setting_name(b)[0]
        || setting_name(a)[1] != setting_name(b)[1]);
}

/// A setting together with the points spent on it.
#[derive(Clone, Copy, Debug, PartialEq, Eq, Structural)]
pub struct SpaceshipSettingValue {
    pub setting: SpaceshipSetting,
    pub value: u32,
}

impl Default for SpaceshipSettingValue {
    fn default() -> (r: Self)
        ensures
            r.setting == SpaceshipSetting::Shields,
            r.value == 0,
    {
        SpaceshipSettingValue { setting: SpaceshipSetting::Shields, value: 0 }
    }
}

impl SpaceshipSettingValue {
    /// `setting` with no points spent on it.
    pub fn new(setting: SpaceshipSetting) -> (r: Self)
        ensures
            r.setting == setting,
            r.value == 0,
    {
        SpaceshipSettingValue { setting, value: 0 }
    }
}

} // verus!
