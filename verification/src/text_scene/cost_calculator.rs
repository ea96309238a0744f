//! What a setting value costs.
use vstd::prelude::*;
use crate::spaceship_settings::{SpaceshipSetting, SpaceshipSettingValue};

verus! {

/// The cost of a setting value: one more than its points for shields, one for
/// any other setting.
pub open spec fn cost_of(v: SpaceshipSettingValue) -> int {
    match v.setting {
        SpaceshipSetting::Shields => v.value + 1,
        _ => 1,
    }
}

/// The cost of `setting_value` (see [`cost_of`]).
pub fn calculate_cost(setting_value: &SpaceshipSettingValue) -> (cost: u32)
    requires
        setting_value.setting == SpaceshipSetting::Shields ==> setting_value.value < u32::MAX,
    ensures
        cost == cost_of(*setting_value),
{
    let mut cost: u32 = 1;
    match setting_value.setting {
        SpaceshipSetting::Shields => {
            cost = setting_value.value + 1;
        },
        _ => {},
    }
    return cost;
}

} // verus!
