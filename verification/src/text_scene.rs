//! The spaceship-settings menu: which entry is selected, how many points are
//! left, how they are spread over the settings, and the text shown for it.
use vstd::prelude::*;
use crate::spaceship_settings::{SpaceshipSetting, SpaceshipSettingValue, index_of, setting_at, setting_name};
use crate::text::{chars_of, decimal, is_ascii_digit, join, join_strings, lemma_decimal_digits, lemma_replace_absent, lemma_replace_leading, no_double_space, replace_all, replace_chars, string_from_chars, u32_to_string};

pub mod cost_calculator;
pub mod text_scene_text;

verus! {

broadcast use vstd::string::group_string_axioms;

/// The points a player has to spend in total.
pub open spec fn total_points() -> int {
    10
}

/// The menu entry that is selected: one of the settings, or the submit button.
#[derive(Clone, Copy, Debug, PartialEq, Eq, Structural)]
pub enum SelectedInput {
    Setting(SpaceshipSetting),
    Submit,
}

/// The entry above `s`; above the first setting is the submit button.
pub open spec fn selection_above(s: SelectedInput) -> SelectedInput {
    match s {
        SelectedInput::Setting(SpaceshipSetting::Shields) => SelectedInput::Submit,
        SelectedInput::Setting(SpaceshipSetting::Firepower) => SelectedInput::Setting(SpaceshipSetting::Shields),
        SelectedInput::Setting(SpaceshipSetting::DefenseThickness) => SelectedInput::Setting(SpaceshipSetting::Firepower),
        SelectedInput::Setting(SpaceshipSetting::DodgeChance) => SelectedInput::Setting(SpaceshipSetting::DefenseThickness),
        SelectedInput::Submit => SelectedInput::Setting(SpaceshipSetting::DodgeChance),
    }
}

/// The entry below `s`; below the submit button is the first setting.
pub open spec fn selection_below(s: SelectedInput) -> SelectedInput {
    match s {
        SelectedInput::Setting(SpaceshipSetting::Shields) => SelectedInput::Setting(SpaceshipSetting::Firepower),
        SelectedInput::Setting(SpaceshipSetting::Firepower) => SelectedInput::Setting(SpaceshipSetting::DefenseThickness),
        SelectedInput::Setting(SpaceshipSetting::DefenseThickness) => SelectedInput::Setting(SpaceshipSetting::DodgeChance),
        SelectedInput::Setting(SpaceshipSetting::DodgeChance) => SelectedInput::Submit,
        SelectedInput::Submit => SelectedInput::Setting(SpaceshipSetting::Shields),
    }
}

/// What the menu holds: the selected entry, the points left, and the points
/// spent on each setting, by position.
pub struct MenuModel {
    pub selected: SelectedInput,
    pub remaining: int,
    pub values: Seq<int>,
}

/// A menu where every point is either left or spent, none is negative.
pub open spec fn menu_wf(m: MenuModel) -> bool {
    &&& m.values.len() == 4
    &&& m.remaining >= 0
    &&& forall|i: int| 0 <= i < 4 ==> m.values[i] >= 0
    &&& m.remaining + m.values[0] + m.values[1] + m.values[2] + m.values[3] == total_points()
}

/// The menu as it starts: first setting selected, nothing spent.
pub open spec fn initial_menu() -> MenuModel {
    MenuModel { selected: SelectedInput::Setting(SpaceshipSetting::Shields), remaining: total_points(), values: seq![0, 0, 0, 0] }
}

pub open spec fn menu_up(m: MenuModel) -> MenuModel {
    MenuModel { selected: selection_above(m.selected), ..m }
}

pub open spec fn menu_down(m: MenuModel) -> MenuModel {
    MenuModel { selected: selection_below(m.selected), ..m }
}

/// Moves `delta` points from the pool to the setting at `index`, when the pool
/// stays between 0 and the total and the setting stays non-negative;
/// otherwise nothing changes.
pub open spec fn menu_change_setting(m: MenuModel, index: int, delta: int) -> MenuModel {
    let new_value = m.values[index] + delta;
    let new_remaining = m.remaining - delta;
    if 0 <= new_remaining <= total_points() && new_value >= 0 {
        MenuModel { remaining: new_remaining, values: m.values.update(index, new_value), ..m }
    } else {
        m
    }
}

/// Changes the selected setting by `delta`; on the submit button, starts over.
pub open spec fn menu_change(m: MenuModel, delta: int) -> MenuModel {
    match m.selected {
        SelectedInput::Setting(s) => menu_change_setting(m, index_of(s) as int, delta),
        SelectedInput::Submit => initial_menu(),
    }
}

/// Going up then down, or down then up, selects the same entry again.
pub proof fn lemma_up_down_inverse(m: MenuModel)
    ensures
        menu_down(menu_up(m)) == m,
        menu_up(menu_down(m)) == m,
{
}

/// The five entries form a cycle: five steps up come back to the start.
pub proof fn lemma_up_cycle(m: MenuModel)
    ensures
        menu_up(menu_up(menu_up(menu_up(menu_up(m))))) == m,
{
}

/// Every change keeps the menu consistent: no point is lost or made, none is
/// negative.
pub proof fn lemma_change_keeps_points(m: MenuModel, delta: int)
    requires
        menu_wf(m),
    ensures
        menu_wf(menu_change(m, delta)),
        menu_wf(menu_up(m)),
        menu_wf(menu_down(m)),
{
    if let SelectedInput::Setting(s) = m.selected {
        lemma_change_setting_keeps_points(m, index_of(s) as int, delta);
    }
}

/// Changing one setting by any amount keeps the menu consistent: the points
/// left and spent still add up to the total, and none is negative.
pub proof fn lemma_change_setting_keeps_points(m: MenuModel, index: int, delta: int)
    requires
        menu_wf(m),
        0 <= index < 4,
    ensures
        menu_wf(menu_change_setting(m, index, delta)),
        menu_change_setting(m, index, delta).selected == m.selected,
{
    let r = menu_change_setting(m, index, delta);
    if r != m {
        assert(r.values[0] + r.values[1] + r.values[2] + r.values[3] == m.values[0] + m.values[1]
            + m.values[2] + m.values[3] + delta);
    }
}

/// On a setting, one more point is spent exactly when some are left, and one
/// is taken back exactly when the setting has any.
pub proof fn lemma_change_succeeds(m: MenuModel, s: SpaceshipSetting)
    requires
        menu_wf(m),
        m.selected == SelectedInput::Setting(s),
    ensures
        menu_change(m, 1) != m <==> m.remaining > 0,
        menu_change(m, -1) != m <==> m.values[index_of(s) as int] > 0,
{
    let i = index_of(s) as int;
    if m.remaining > 0 {
        assert(menu_change(m, 1).remaining != m.remaining);
    }
    if m.values[i] > 0 {
        assert(menu_change(m, -1).values[i] != m.values[i]);
    }
}

/// On a setting, a point spent and then taken back (or taken back and then
/// spent) leaves the menu as it was.
pub proof fn lemma_increase_decrease_inverse(m: MenuModel, s: SpaceshipSetting)
    requires
        menu_wf(m),
        m.selected == SelectedInput::Setting(s),
    ensures
        menu_change(m, 1) != m ==> menu_change(menu_change(m, 1), -1) == m,
        menu_change(m, -1) != m ==> menu_change(menu_change(m, -1), 1) == m,
{
    let i = index_of(s) as int;
    let up = menu_change(m, 1);
    if up != m {
        assert(up.values.update(i, up.values[i] - 1) =~= m.values);
    }
    let down = menu_change(m, -1);
    if down != m {
        assert(down.values.update(i, down.values[i] + 1) =~= m.values);
    }
}

/// On the submit button, either change starts the menu over, and the menu it
/// starts is consistent.
pub proof fn lemma_submit_restarts(m: MenuModel, delta: int)
    requires
        m.selected == SelectedInput::Submit,
    ensures
        menu_change(m, delta) == initial_menu(),
        menu_wf(initial_menu()),
{
}

// ---------------------------------------------------------------------------
// The text of the menu
// ---------------------------------------------------------------------------

/// `"  <name>: <points>"`
pub open spec fn setting_line(v: SpaceshipSettingValue) -> Seq<char> {
    "  "@ + setting_name(v.setting) + ": "@ + decimal(v.value as nat)
}

/// The lines of the menu before the selection is marked.
pub open spec fn menu_lines(welcome: Seq<char>, remaining: nat, settings: Seq<SpaceshipSettingValue>) -> Seq<Seq<char>> {
    seq![
        welcome,
        Seq::empty(),
        "Prepare for space invaders!"@,
        "Please input your spaceship settings..."@,
        Seq::empty(),
        "Points remaining: "@ + decimal(remaining),
        Seq::empty(),
        setting_line(settings[0]),
        setting_line(settings[1]),
        setting_line(settings[2]),
        setting_line(settings[3]),
        " "@,
        "  SUBMIT"@,
    ]
}

/// The four settings in order, each with the points in `values` at its
/// position.
pub open spec fn settings_of(values: Seq<int>) -> Seq<SpaceshipSettingValue> {
    Seq::new(4, |i: int| SpaceshipSettingValue { setting: setting_at(i), value: values[i] as u32 })
}

/// Position `i` of the settings shown for the points `values` is the setting
/// at that position with the points at that position.
pub proof fn lemma_settings_of(values: Seq<int>)
    ensures
        settings_of(values).len() == 4,
        forall|i: int| 0 <= i < 4 ==> (#[trigger] settings_of(values)[i]).setting == setting_at(i)
            && settings_of(values)[i].value == values[i] as u32,
{
}

/// The line that shows entry `s`.
pub open spec fn selected_line(s: SelectedInput) -> int {
    match s {
        SelectedInput::Setting(x) => 7 + index_of(x) as int,
        SelectedInput::Submit => 12,
    }
}

/// The menu lines with every double space of the selected line turned into
/// `"> "`.
pub open spec fn marked_menu_lines(
    welcome: Seq<char>,
    remaining: nat,
    settings: Seq<SpaceshipSettingValue>,
    selected: SelectedInput,
) -> Seq<Seq<char>> {
    let lines = menu_lines(welcome, remaining, settings);
    let k = selected_line(selected);
    lines.update(k, replace_all(lines[k], "  "@, "> "@))
}

proof fn lemma_setting_name_has_no_space(x: SpaceshipSetting)
    ensures
        setting_name(x).len() > 0,
        forall|j: int| 0 <= j < setting_name(x).len() ==> #[trigger] setting_name(x)[j] != ' ',
{
    reveal_strlit("Shields");
    reveal_strlit("Firepower");
    reveal_strlit("DefenseThickness");
    reveal_strlit("DodgeChance");
}

/// A setting line is two spaces, the name, ": " and the points; marking it
/// puts "> " in place of the two spaces and leaves the rest.
proof fn lemma_setting_line_marked(v: SpaceshipSettingValue)
    ensures
        setting_line(v) == "  "@ + (setting_name(v.setting) + ": "@ + decimal(v.value as nat)),
        replace_all(setting_line(v), "  "@, "> "@) == "> "@ + (setting_name(v.setting) + ": "@ + decimal(
            v.value as nat,
        )),
{
    reveal_strlit("  ");
    reveal_strlit(": ");
    let name = setting_name(v.setting);
    let d = decimal(v.value as nat);
    let tail = name + ": "@ + d;
    lemma_setting_name_has_no_space(v.setting);
    lemma_decimal_digits(v.value as nat);
    assert forall|j: int| 0 <= j < tail.len() - 1 implies !(#[trigger] tail[j] == ' ' && tail[j + 1] == ' ') by {
        if j < name.len() {
            assert(tail[j] == name[j]);
        } else if j == name.len() {
            assert(tail[j] == ':');
        } else {
            assert(tail[j + 1] == d[j + 1 - name.len() - 2]);
            assert(is_ascii_digit(d[j + 1 - name.len() - 2]));
        }
    }
    assert("  "@ =~= seq![' ', ' ']);
    assert(setting_line(v) =~= seq![' ', ' '] + tail);
    lemma_replace_leading(tail, "> "@);
    lemma_replace_absent(tail, "> "@);
}

/// The menu text, line by line: the welcome line first, the points left on
/// line 5, and on line 7 + i the setting at position `i` of `settings`
/// (its name, ": " and its points) behind "> " when the setting at that
/// position is the selected entry and behind two spaces otherwise; the
/// submit line last, marked exactly when submit is selected.
pub proof fn lemma_marked_lines_show_selection(
    welcome: Seq<char>,
    remaining: nat,
    settings: Seq<SpaceshipSettingValue>,
    selected: SelectedInput,
)
    requires
        settings.len() == 4,
    ensures
        ({
            let lines = marked_menu_lines(welcome, remaining, settings, selected);
            &&& lines.len() == 13
            &&& lines[0] == welcome
            &&& lines[5] == "Points remaining: "@ + decimal(remaining)
            &&& forall|i: int|
                0 <= i < 4 ==> #[trigger] lines[7 + i] == (if selected == SelectedInput::Setting(setting_at(i)) {
                    "> "@
                } else {
                    "  "@
                }) + (setting_name(settings[i].setting) + ": "@ + decimal(settings[i].value as nat))
            &&& lines[12] == (if selected == SelectedInput::Submit {
                "> SUBMIT"@
            } else {
                "  SUBMIT"@
            })
        }),
{
    reveal_strlit("  SUBMIT");
    reveal_strlit("> SUBMIT");
    reveal_strlit("  ");
    reveal_strlit("> ");
    reveal_strlit("SUBMIT");
    let plain = menu_lines(welcome, remaining, settings);
    let lines = marked_menu_lines(welcome, remaining, settings, selected);
    let k = selected_line(selected);
    assert forall|i: int|
        0 <= i < 4 implies #[trigger] lines[7 + i] == (if selected == SelectedInput::Setting(setting_at(i)) {
            "> "@
        } else {
            "  "@
        }) + (setting_name(settings[i].setting) + ": "@ + decimal(settings[i].value as nat)) by {
        lemma_setting_line_marked(settings[i]);
        assert(plain[7 + i] == setting_line(settings[i]));
    }
    let submit_tail = "SUBMIT"@;
    assert(no_double_space(submit_tail));
    assert("  SUBMIT"@ =~= seq![' ', ' '] + submit_tail);
    assert("> SUBMIT"@ =~= "> "@ + submit_tail);
    assert("  "@ =~= seq![' ', ' ']);
    lemma_replace_leading(submit_tail, "> "@);
    lemma_replace_absent(submit_tail, "> "@);
    assert(lines.len() == 13);
    assert(lines[0] == welcome);
    assert(lines[5] == "Points remaining: "@ + decimal(remaining));
    assert(lines[12] == (if selected == SelectedInput::Submit {
        "> SUBMIT"@
    } else {
        "  SUBMIT"@
    }));
}

fn setting_line_string(v: SpaceshipSettingValue) -> (r: String)
    ensures
        r@ == setting_line(v),
{
    let mut r = String::from_str("  ");
    r.append(v.setting.name());
    r.append(": ");
    r.append(u32_to_string(v.value).as_str());
    r
}

/// Builds the marked menu lines.
pub(crate) fn build_menu_lines(
    welcome: String,
    remaining: u32,
    settings: &[SpaceshipSettingValue; 4],
    selected: SelectedInput,
) -> (r: Vec<String>)
    ensures
        r.deep_view() == marked_menu_lines(welcome@, remaining as nat, settings@, selected),
{
    let mut points = String::from_str("Points remaining: ");
    points.append(u32_to_string(remaining).as_str());
    let mut lines: Vec<String> = Vec::new();
    lines.push(welcome);
    lines.push(String::new());
    lines.push(String::from_str("Prepare for space invaders!"));
    lines.push(String::from_str("Please input your spaceship settings..."));
    lines.push(String::new());
    lines.push(points);
    lines.push(String::new());
    lines.push(setting_line_string(settings[0]));
    lines.push(setting_line_string(settings[1]));
    lines.push(setting_line_string(settings[2]));
    lines.push(setting_line_string(settings[3]));
    lines.push(String::from_str(" "));
    lines.push(String::from_str("  SUBMIT"));
    let ghost plain = menu_lines(welcome@, remaining as nat, settings@);
    assert(lines.deep_view() =~= plain);
    let k: usize = match selected {
        SelectedInput::Setting(s) => 7 + s.to_index(),
        SelectedInput::Submit => 12,
    };
    let pat = chars_of("  ");
    let rep = chars_of("> ");
    proof {
        reveal_strlit("  ");
    }
    let line = chars_of(lines[k].as_str());
    let marked = replace_chars(&line, &pat, &rep);
    let ghost before = lines.deep_view();
    lines.set(k, string_from_chars(&marked));
    assert(lines.deep_view() =~= before.update(k as int, marked@));
    lines
}

// ---------------------------------------------------------------------------
// The menu scene
// ---------------------------------------------------------------------------

/// The points left and the settings with the points spent on each; every
/// point is either left or spent, and setting `i` sits at position `i`.
struct Points {
    remaining: u32,
    settings: [SpaceshipSettingValue; 4],
}

impl Points {
    #[verifier::type_invariant]
    spec fn consistent(self) -> bool {
        &&& self.remaining + self.settings@[0].value + self.settings@[1].value + self.settings@[2].value
            + self.settings@[3].value == total_points()
        &&& forall|i: int| 0 <= i < 4 ==> (#[trigger] self.settings@[i]).setting == setting_at(i)
    }

    spec fn values(self) -> Seq<int> {
        Seq::new(4, |i: int| self.settings@[i].value as int)
    }

    fn initial() -> (p: Self)
        ensures
            p.remaining == total_points(),
            p.values() == seq![0int, 0, 0, 0],
    {
        let p = Points {
            remaining: 10,
            settings: [
                SpaceshipSettingValue::new(SpaceshipSetting::Shields),
                SpaceshipSettingValue::new(SpaceshipSetting::Firepower),
                SpaceshipSettingValue::new(SpaceshipSetting::DefenseThickness),
                SpaceshipSettingValue::new(SpaceshipSetting::DodgeChance),
            ],
        };
        assert(p.values() =~= seq![0int, 0, 0, 0]);
        p
    }
}

/// Glyph vertices of the last layout and the most of any layout so far.
struct VertexCounts {
    last: usize,
    most: usize,
}

impl VertexCounts {
    #[verifier::type_invariant]
    spec fn most_is_a_bound(self) -> bool {
        self.last <= self.most
    }
}

/// The state of the settings menu: the text typed so far, the selected entry,
/// the points left and spent, and how many glyph vertices the last layout had
/// and the most it ever had (the size of the vertex buffer).
pub struct TextScene {
    text: Vec<char>,
    selected_input: SelectedInput,
    points: Points,
    vertices: VertexCounts,
}

impl View for TextScene {
    type V = MenuModel;

    closed spec fn view(&self) -> MenuModel {
        MenuModel { selected: self.selected_input, remaining: self.points.remaining as int, values: self.points.values() }
    }
}

impl TextScene {
    /// The text typed so far.
    pub closed spec fn typed(&self) -> Seq<char> {
        self.text@
    }

    /// Glyph vertices of the last layout.
    pub closed spec fn vertex_count_spec(&self) -> nat {
        self.vertices.last as nat
    }

    /// Most glyph vertices of any layout so far.
    pub closed spec fn vertex_max_spec(&self) -> nat {
        self.vertices.most as nat
    }

    /// A menu with `text` typed, the first setting selected and nothing spent.
    pub fn new(text: String) -> (r: Self)
        ensures
            r@ == initial_menu(),
            menu_wf(r@),
            r.typed() == text@,
            r.vertex_count_spec() == 0,
            r.vertex_max_spec() == 0,
    {
        TextScene {
            text: chars_of(text.as_str()),
            selected_input: SelectedInput::Setting(SpaceshipSetting::Shields),
            points: Points::initial(),
            vertices: VertexCounts { last: 0, most: 0 },
        }
    }

    /// Removes the last typed character, if there is one.
    pub fn pop(&mut self)
        ensures
            menu_wf(final(self)@),
            final(self).typed() == (if old(self).typed().len() > 0 { old(self).typed().drop_last() } else { old(self).typed() }),
            final(self)@ == old(self)@,
            final(self).vertex_count_spec() == old(self).vertex_count_spec(),
            final(self).vertex_max_spec() == old(self).vertex_max_spec(),
    {
        proof {
            use_type_invariant(&self.points);
        }
        self.text.pop();
    }

    /// Types `c`, unless it is a delete or backspace character.
    pub fn push(&mut self, c: char)
        ensures
            menu_wf(final(self)@),
            final(self).typed() == (if c != '\u{7f}' && c != '\u{8}' { old(self).typed().push(c) } else { old(self).typed() }),
            final(self)@ == old(self)@,
            final(self).vertex_count_spec() == old(self).vertex_count_spec(),
            final(self).vertex_max_spec() == old(self).vertex_max_spec(),
    {
        proof {
            use_type_invariant(&self.points);
        }
        if c != '\u{7f}' && c != '\u{8}' {
            self.text.push(c);
        }
    }

    /// The text typed so far.
    pub fn text(&self) -> (r: String)
        ensures
            r@ == self.typed(),
    {
        string_from_chars(&self.text)
    }

    /// Selects the entry above the selected one.
    pub fn up(&mut self)
        ensures
            menu_wf(final(self)@),
            final(self)@ == menu_up(old(self)@),
            final(self).typed() == old(self).typed(),
            final(self).vertex_count_spec() == old(self).vertex_count_spec(),
            final(self).vertex_max_spec() == old(self).vertex_max_spec(),
    {
        proof {
            use_type_invariant(&self.points);
        }
        let new_selected: SelectedInput;
        match self.selected_input {
            SelectedInput::Setting(setting) => {
                match setting {
                    SpaceshipSetting::Shields => { new_selected = SelectedInput::Submit; },
                    SpaceshipSetting::Firepower => { new_selected = SelectedInput::Setting(SpaceshipSetting::Shields); },
                    SpaceshipSetting::DefenseThickness => { new_selected = SelectedInput::Setting(SpaceshipSetting::Firepower); },
                    SpaceshipSetting::DodgeChance => { new_selected = SelectedInput::Setting(SpaceshipSetting::DefenseThickness); },
                }
            },
            SelectedInput::Submit => {
                new_selected = SelectedInput::Setting(SpaceshipSetting::DodgeChance);
            },
        }
        self.selected_input = new_selected;
    }

    /// Selects the entry below the selected one.
    pub fn down(&mut self)
        ensures
            menu_wf(final(self)@),
            final(self)@ == menu_down(old(self)@),
            final(self).typed() == old(self).typed(),
            final(self).vertex_count_spec() == old(self).vertex_count_spec(),
            final(self).vertex_max_spec() == old(self).vertex_max_spec(),
    {
        proof {
            use_type_invariant(&self.points);
        }
        let new_selected: SelectedInput;
        match self.selected_input {
            SelectedInput::Setting(setting) => {
                match setting {
                    SpaceshipSetting::Shields => { new_selected = SelectedInput::Setting(SpaceshipSetting::Firepower); },
                    SpaceshipSetting::Firepower => { new_selected = SelectedInput::Setting(SpaceshipSetting::DefenseThickness); },
                    SpaceshipSetting::DefenseThickness => { new_selected = SelectedInput::Setting(SpaceshipSetting::DodgeChance); },
                    SpaceshipSetting::DodgeChance => { new_selected = SelectedInput::Submit; },
                }
            },
            SelectedInput::Submit => {
                new_selected = SelectedInput::Setting(SpaceshipSetting::Shields);
            },
        }
        self.selected_input = new_selected;
    }

    fn change_setting(&mut self, index: usize, delta: i32)
        requires
            index < 4,
            i32::MIN <= old(self)@.values[index as int] + delta <= i32::MAX,
            i32::MIN <= old(self)@.remaining - delta <= i32::MAX,
        ensures
            final(self)@ == menu_change_setting(old(self)@, index as int, delta as int),
            final(self).typed() == old(self).typed(),
            final(self).vertex_count_spec() == old(self).vertex_count_spec(),
            final(self).vertex_max_spec() == old(self).vertex_max_spec(),
    {
        proof {
            use_type_invariant(&self.points);
        }
        let new_val: i32 = self.points.settings[index].value as i32 + delta;
        let new_remaining: i32 = self.points.remaining as i32 - delta;
        if new_remaining >= 0 && new_remaining <= 10 && new_val >= 0 {
            let ghost before = self.points.values();
            let mut settings = self.points.settings;
            let mut entry = settings[index];
            entry.value = new_val as u32;
            settings[index] = entry;
            self.points = Points { remaining: new_remaining as u32, settings };
            assert(self.points.values() =~= before.update(index as int, new_val as int));
        }
    }

    fn change(&mut self, delta: i32)
        requires
            match old(self)@.selected {
                SelectedInput::Setting(s) => {
                    &&& i32::MIN <= old(self)@.values[index_of(s) as int] + delta <= i32::MAX
                    &&& i32::MIN <= old(self)@.remaining - delta <= i32::MAX
                },
                SelectedInput::Submit => true,
            },
        ensures
            final(self)@ == menu_change(old(self)@, delta as int),
            final(self).typed() == old(self).typed(),
            final(self).vertex_count_spec() == old(self).vertex_count_spec(),
            final(self).vertex_max_spec() == old(self).vertex_max_spec(),
    {
        proof {
            use_type_invariant(&self.points);
        }
        match self.selected_input {
            SelectedInput::Setting(setting) => {
                match setting {
                    SpaceshipSetting::Shields => { self.change_setting(0, delta); },
                    SpaceshipSetting::Firepower => { self.change_setting(1, delta); },
                    SpaceshipSetting::DefenseThickness => { self.change_setting(2, delta); },
                    SpaceshipSetting::DodgeChance => { self.change_setting(3, delta); },
                }
            },
            SelectedInput::Submit => {
                self.selected_input = SelectedInput::Setting(SpaceshipSetting::Shields);
                self.points = Points::initial();
            },
        }
    }

    /// Puts one more point on the selected setting, if any is left; on the
    /// submit button, starts the menu over.
    pub fn increase(&mut self)
        ensures
            menu_wf(final(self)@),
            final(self)@ == menu_change(old(self)@, 1),
            final(self).typed() == old(self).typed(),
            final(self).vertex_count_spec() == old(self).vertex_count_spec(),
            final(self).vertex_max_spec() == old(self).vertex_max_spec(),
    {
        proof {
            use_type_invariant(&self.points);
        }
        self.change(1);
    }

    /// Takes one point back from the selected setting, if it has any; on the
    /// submit button, starts the menu over.
    pub fn decrease(&mut self)
        ensures
            menu_wf(final(self)@),
            final(self)@ == menu_change(old(self)@, -1),
            final(self).typed() == old(self).typed(),
            final(self).vertex_count_spec() == old(self).vertex_count_spec(),
            final(self).vertex_max_spec() == old(self).vertex_max_spec(),
    {
        proof {
            use_type_invariant(&self.points);
        }
        self.change(-1);
    }

    /// The text of the menu: its lines, with the selected one marked by
    /// `"> "`, joined by newlines.
    pub fn generate_string(&self) -> (r: String)
        ensures
            r@ == join(
                marked_menu_lines("Welcome honorable guest."@, self@.remaining as nat, settings_of(self@.values), self@.selected),
                "\n"@,
            ),
    {
        proof {
            use_type_invariant(&self.points);
            assert(self.points.settings@ =~= settings_of(self@.values));
        }
        let lines = build_menu_lines(
            String::from_str("Welcome honorable guest."),
            self.points.remaining,
            &self.points.settings,
            self.selected_input,
        );
        join_strings(&lines, "\n")
    }

    /// Records that the last layout has `count` glyph vertices, and tells
    /// whether that is more than any layout before (so the vertex buffer must
    /// grow rather than be overwritten).
    pub fn record_vertex_count(&mut self, count: usize) -> (grow: bool)
        ensures
            grow == (old(self).vertex_max_spec() < count),
            final(self).vertex_count_spec() == count,
            final(self).vertex_max_spec() == (if grow { count as nat } else { old(self).vertex_max_spec() }),
            final(self).vertex_max_spec() >= final(self).vertex_count_spec(),
            final(self).vertex_max_spec() >= old(self).vertex_max_spec(),
            final(self)@ == old(self)@,
            final(self).typed() == old(self).typed(),
    {
        let grow = self.vertices.most < count;
        let most = if grow { count } else { self.vertices.most };
        self.vertices = VertexCounts { last: count, most };
        grow
    }

    /// Glyph vertices of the last layout.
    pub fn vertex_count(&self) -> (r: usize)
        ensures
            r == self.vertex_count_spec(),
    {
        self.vertices.last
    }

    /// What holds of every menu scene: the points left and spent add up to
    /// the total and none is negative, and no layout has had more glyph
    /// vertices than the most recorded.
    pub fn check_consistent(&self)
        ensures
            menu_wf(self@),
            self.vertex_count_spec() <= self.vertex_max_spec(),
    {
        proof {
            use_type_invariant(&self.points);
            use_type_invariant(&self.vertices);
        }
    }
}

} // verus!
