//! The menu text for a named player, with a line appended below it.
use vstd::prelude::*;
use crate::spaceship_settings::SpaceshipSettingValue;
use crate::text::{join, join_strings, lemma_join_first, lemma_join_last};
use crate::text_scene::{SelectedInput, build_menu_lines, lemma_marked_lines_show_selection, marked_menu_lines};

verus! {

/// What the menu text shows.
pub struct TextVariables {
    pub player_name: String,
    pub player_remaining_points: u32,
    pub ship_settings: [SpaceshipSettingValue; 4],
    pub selected_input: SelectedInput,
    pub appendix: String,
}

/// The lines of the text: the marked menu greeting the player by name, then a
/// blank line and the appendix.
pub open spec fn text_lines(
    name: Seq<char>,
    remaining: nat,
    settings: Seq<SpaceshipSettingValue>,
    selected: SelectedInput,
    appendix: Seq<char>,
) -> Seq<Seq<char>> {
    marked_menu_lines("Welcome "@ + name + "."@, remaining, settings, selected) + seq![" "@, appendix]
}

/// The menu text for `variables`, lines joined by newlines.
pub fn generate_string(variables: TextVariables) -> (r: String)
    ensures
        r@ == join(
            text_lines(
                variables.player_name@,
                variables.player_remaining_points as nat,
                variables.ship_settings@,
                variables.selected_input,
                variables.appendix@,
            ),
            "\n"@,
        ),
{
    let mut welcome = String::from_str("Welcome ");
    welcome.append(variables.player_name.as_str());
    welcome.append(".");
    let setting_points = variables.ship_settings;
    let mut lines = build_menu_lines(
        welcome,
        variables.player_remaining_points,
        &setting_points,
        variables.selected_input,
    );
    let ghost marked = lines.deep_view();
    lines.push(String::from_str(" "));
    lines.push(variables.appendix);
    assert(lines.deep_view() =~= marked + seq![" "@, variables.appendix@]);
    join_strings(&lines, "\n")
}

/// The text for a named player begins with "Welcome ", the whole name and
/// "." on a line of its own, whatever the name holds (spaces included), and
/// ends with a line holding one space and then the appendix as the last
/// line.
pub proof fn lemma_text_greets_player(
    name: Seq<char>,
    remaining: nat,
    settings: Seq<SpaceshipSettingValue>,
    selected: SelectedInput,
    appendix: Seq<char>,
)
    requires
        settings.len() == 4,
    ensures
        ({
            let t = join(text_lines(name, remaining, settings, selected, appendix), "\n"@);
            let greeting = "Welcome "@ + name + "."@;
            let end = t.len() - appendix.len();
            &&& t.len() > greeting.len()
            &&& t.take(greeting.len() as int) == greeting
            &&& t[greeting.len() as int] == '\n'
            &&& end >= 3
            &&& t.skip(end) == appendix
            &&& t[end - 1] == '\n'
            &&& t[end - 2] == ' '
            &&& t[end - 3] == '\n'
        }),
{
    reveal_strlit("\n");
    reveal_strlit(" ");
    let parts = text_lines(name, remaining, settings, selected, appendix);
    let greeting = "Welcome "@ + name + "."@;
    lemma_marked_lines_show_selection(greeting, remaining, settings, selected);
    assert(parts[0] == greeting);
    lemma_join_first(parts, "\n"@);
    let t = join(parts, "\n"@);
    assert(t[greeting.len() as int] == t.subrange(greeting.len() as int, greeting.len() + 1int)[0]);
    lemma_join_last(parts, "\n"@);
    let front = parts.drop_last();
    assert(front.last() == " "@);
    lemma_join_last(front, "\n"@);
    let head = join(front, "\n"@);
    assert(t == head + "\n"@ + appendix);
    let end = t.len() - appendix.len();
    assert(t[end - 1] == t.subrange(end - 1, end)[0]);
    assert(t[end - 2] == head[head.len() - 1]);
    assert(head[head.len() - 1] == head.skip(head.len() - 1)[0]);
    assert(t[end - 3] == head[head.len() - 2]);
    assert(head[head.len() - 2] == head.subrange(head.len() - 2, head.len() - 1)[0]);
}

} // verus!
