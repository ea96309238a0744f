//! The form a new player is posted to the player server with.
use vstd::prelude::*;
use crate::spaceship_settings::{SpaceshipSetting, SpaceshipSettingValue, lemma_names_distinct, setting_name};
use crate::string_map::StringMap;
use crate::text::{decimal, u32_to_string};

verus! {

broadcast use vstd::string::group_string_axioms;

/// The URL of `endpoint` on the player server.
pub fn get_endpoint(endpoint: &str) -> (r: String)
    ensures
        r@ == crate::execut_api::server_address() + endpoint@,
{
    let mut r = String::from_str("http://localhost:4444/");
    r.append(endpoint);
    r
}

/// The form field of a setting: `"settings_"` and the setting's name.
pub open spec fn setting_key(setting: SpaceshipSetting) -> Seq<char> {
    "settings_"@ + setting_name(setting)
}

/// The form field of `setting`.
pub fn setting_to_key(setting: SpaceshipSetting) -> (key: String)
    ensures
        key@ == setting_key(setting),
{
    let mut key = String::from_str("settings_");
    key.append(setting.name());
    key
}

/// `base` with a field for each setting of `settings` holding its points; a
/// setting listed twice keeps its first value.
pub open spec fn with_settings(base: Map<Seq<char>, Seq<char>>, settings: Seq<SpaceshipSettingValue>) -> Map<Seq<char>, Seq<char>>
    decreases settings.len(),
{
    if settings.len() == 0 {
        base
    } else {
        with_settings(base, settings.drop_first()).insert(
            setting_key(settings[0].setting),
            decimal(settings[0].value as nat),
        )
    }
}

/// The form of a new player: the nickname and the points of each setting.
pub open spec fn player_form(nickname: Seq<char>, settings: Seq<SpaceshipSettingValue>) -> Map<Seq<char>, Seq<char>> {
    with_settings(Map::empty().insert("nickname"@, nickname), settings)
}

/// The form of a new player with `nickname` and `settings`.
pub fn to_map<const N: usize>(nickname: String, settings: [SpaceshipSettingValue; N]) -> (map: StringMap<String>)
    ensures
        map@.map_values(|v: String| v@) == player_form(nickname@, settings@),
{
    let mut map: StringMap<String> = StringMap::new();
    map.insert(String::from_str("nickname"), nickname);
    let ghost base = map@.map_values(|v: String| v@);
    assert(base =~= Map::empty().insert("nickname"@, nickname@));
    let mut i = N;
    assert(settings@.skip(N as int) =~= Seq::<SpaceshipSettingValue>::empty());
    while i > 0
        invariant
            i <= N,
            settings@.len() == N,
            map@.map_values(|v: String| v@) == with_settings(base, settings@.skip(i as int)),
            base == Map::empty().insert("nickname"@, nickname@),
        decreases i,
    {
        i = i - 1;
        let key = setting_to_key(settings[i].setting);
        let ghost before = map@;
        let value = u32_to_string(settings[i].value);
        let ghost key_view = key@;
        let ghost value_view = value@;
        map.insert(key, value);
        assert(map@.map_values(|v: String| v@) =~= before.map_values(|v: String| v@).insert(key_view, value_view));
        assert(settings@.skip(i as int).drop_first() =~= settings@.skip(i + 1));
    }
    assert(settings@.skip(0) =~= settings@);
    map
}

proof fn lemma_setting_key_injective(a: SpaceshipSetting, b: SpaceshipSetting)
    requires
        a != b,
    ensures
        setting_key(a) != setting_key(b),
{
    lemma_names_distinct(a, b);
    assert(setting_key(a).skip("settings_"@.len() as int) =~= setting_name(a));
    assert(setting_key(b).skip("settings_"@.len() as int) =~= setting_name(b));
}

proof fn lemma_key_not_nickname(setting: SpaceshipSetting)
    ensures
        setting_key(setting) != "nickname"@,
{
    reveal_strlit("nickname");
    reveal_strlit("settings_");
    assert(setting_key(setting)[0] == 's');
}

proof fn lemma_form_nickname(base: Map<Seq<char>, Seq<char>>, settings: Seq<SpaceshipSettingValue>)
    requires
        base.contains_key("nickname"@),
    ensures
        with_settings(base, settings).contains_key("nickname"@),
        with_settings(base, settings)["nickname"@] == base["nickname"@],
    decreases settings.len(),
{
    if settings.len() > 0 {
        lemma_form_nickname(base, settings.drop_first());
        lemma_key_not_nickname(settings[0].setting);
    }
}

proof fn lemma_form_keys(base: Map<Seq<char>, Seq<char>>, settings: Seq<SpaceshipSettingValue>)
    ensures
        forall|i: int| 0 <= i < settings.len() ==> with_settings(base, settings).contains_key(
            #[trigger] setting_key(settings[i].setting),
        ),
        forall|k: Seq<char>| #[trigger] with_settings(base, settings).contains_key(k) ==> base.contains_key(k)
            || exists|i: int| 0 <= i < settings.len() && k == setting_key(settings[i].setting),
    decreases settings.len(),
{
    if settings.len() > 0 {
        let rest = settings.drop_first();
        lemma_form_keys(base, rest);
        let form = with_settings(base, settings);
        assert forall|i: int| 0 <= i < settings.len() implies form.contains_key(
            #[trigger] setting_key(settings[i].setting),
        ) by {
            if i > 0 {
                assert(settings[i] == rest[i - 1]);
            }
        }
        assert forall|k: Seq<char>| #[trigger] form.contains_key(k) implies base.contains_key(k) || exists|i: int|
            0 <= i < settings.len() && k == setting_key(settings[i].setting) by {
            if k == setting_key(settings[0].setting) {
                assert(0 <= 0 < settings.len() && k == setting_key(settings[0].setting));
            } else if !base.contains_key(k) {
                assert(with_settings(base, rest).contains_key(k));
                let i = choose|i: int| 0 <= i < rest.len() && k == setting_key(rest[i].setting);
                assert(settings[i + 1] == rest[i]);
                assert(0 <= i + 1 < settings.len() && k == setting_key(settings[i + 1].setting));
            }
        }
    }
}

proof fn lemma_form_values(base: Map<Seq<char>, Seq<char>>, settings: Seq<SpaceshipSettingValue>)
    ensures
        forall|i: int|
            0 <= i < settings.len() && (forall|j: int| 0 <= j < i ==> (#[trigger] settings[j]).setting != settings[i].setting)
                ==> with_settings(base, settings)[#[trigger] setting_key(settings[i].setting)] == decimal(
                settings[i].value as nat,
            ),
    decreases settings.len(),
{
    if settings.len() > 0 {
        let rest = settings.drop_first();
        lemma_form_values(base, rest);
        let form = with_settings(base, settings);
        assert forall|i: int|
            0 <= i < settings.len() && (forall|j: int| 0 <= j < i ==> (#[trigger] settings[j]).setting
                != settings[i].setting) implies form[#[trigger] setting_key(settings[i].setting)] == decimal(
            settings[i].value as nat,
        ) by {
            if i > 0 {
                assert(settings[i] == rest[i - 1]);
                assert(settings[0].setting != settings[i].setting);
                lemma_setting_key_injective(settings[0].setting, settings[i].setting);
                assert forall|j: int| 0 <= j < i - 1 implies (#[trigger] rest[j]).setting != rest[i - 1].setting by {
                    assert(rest[j] == settings[j + 1]);
                }
            }
        }
    }
}

/// The form holds the nickname under `"nickname"`, a field for every listed
/// setting and nothing else; each setting's field holds the points of its
/// first listing.
pub proof fn lemma_player_form(nickname: Seq<char>, settings: Seq<SpaceshipSettingValue>)
    ensures
        player_form(nickname, settings).contains_key("nickname"@),
        player_form(nickname, settings)["nickname"@] == nickname,
        forall|i: int| 0 <= i < settings.len() ==> player_form(nickname, settings).contains_key(
            #[trigger] setting_key(settings[i].setting),
        ),
        forall|i: int|
            0 <= i < settings.len() && (forall|j: int| 0 <= j < i ==> (#[trigger] settings[j]).setting != settings[i].setting)
                ==> player_form(nickname, settings)[#[trigger] setting_key(settings[i].setting)] == decimal(
                settings[i].value as nat,
            ),
        forall|k: Seq<char>| #[trigger] player_form(nickname, settings).contains_key(k) ==> k == "nickname"@
            || exists|i: int| 0 <= i < settings.len() && k == setting_key(settings[i].setting),
{
    let base = Map::empty().insert("nickname"@, nickname);
    lemma_form_nickname(base, settings);
    lemma_form_keys(base, settings);
    lemma_form_values(base, settings);
}

} // verus!
