use spaceship_menu::spaceship_settings::{SpaceshipSetting, SpaceshipSettingValue};
use spaceship_menu::text_scene::text_scene_text::{generate_string, TextVariables};
use spaceship_menu::text_scene::TextScene;

fn menu_text(selected: usize, points: u32, values: [u32; 4]) -> String {
    let mut lines = vec![
        String::from("Welcome honorable guest."),
        String::new(),
        String::from("Prepare for space invaders!"),
        String::from("Please input your spaceship settings..."),
        String::new(),
        format!("Points remaining: {}", points),
        String::new(),
        format!("  Shields: {}", values[0]),
        format!("  Firepower: {}", values[1]),
        format!("  DefenseThickness: {}", values[2]),
        format!("  DodgeChance: {}", values[3]),
        String::from(" "),
        String::from("  SUBMIT"),
    ];
    lines[selected] = lines[selected].replace("  ", "> ");
    lines.join("\n")
}

#[test]
fn initial_menu_text() {
    let scene = TextScene::new(String::new());
    assert_eq!(scene.generate_string(), menu_text(7, 10, [0, 0, 0, 0]));
    assert!(scene.generate_string().contains("> Shields: 0"));
}

#[test]
fn up_and_down_walk_the_menu() {
    let mut scene = TextScene::new(String::new());
    scene.up();
    assert_eq!(scene.generate_string(), menu_text(12, 10, [0, 0, 0, 0]));
    scene.up();
    assert_eq!(scene.generate_string(), menu_text(10, 10, [0, 0, 0, 0]));
    scene.down();
    scene.down();
    assert_eq!(scene.generate_string(), menu_text(7, 10, [0, 0, 0, 0]));
    for _ in 0..5 {
        scene.down();
    }
    assert_eq!(scene.generate_string(), menu_text(7, 10, [0, 0, 0, 0]));
}

#[test]
fn spending_points() {
    let mut scene = TextScene::new(String::new());
    scene.increase();
    scene.increase();
    scene.down();
    scene.increase();
    assert_eq!(scene.generate_string(), menu_text(8, 7, [2, 1, 0, 0]));
    scene.decrease();
    scene.decrease();
    assert_eq!(scene.generate_string(), menu_text(8, 8, [2, 0, 0, 0]));
}

#[test]
fn cannot_spend_more_than_ten_points() {
    let mut scene = TextScene::new(String::new());
    for _ in 0..15 {
        scene.increase();
    }
    assert_eq!(scene.generate_string(), menu_text(7, 0, [10, 0, 0, 0]));
    scene.down();
    scene.increase();
    assert_eq!(scene.generate_string(), menu_text(8, 0, [10, 0, 0, 0]));
}

#[test]
fn increase_then_decrease_restores() {
    let mut scene = TextScene::new(String::new());
    scene.down();
    scene.down();
    let before = scene.generate_string();
    scene.increase();
    assert_ne!(scene.generate_string(), before);
    scene.decrease();
    assert_eq!(scene.generate_string(), before);
}

#[test]
fn submit_starts_over() {
    let mut scene = TextScene::new(String::new());
    scene.increase();
    scene.down();
    scene.increase();
    scene.up();
    scene.up();
    assert_eq!(scene.generate_string(), menu_text(12, 8, [1, 1, 0, 0]));
    scene.decrease();
    assert_eq!(scene.generate_string(), menu_text(7, 10, [0, 0, 0, 0]));
}

#[test]
fn typing_and_deleting() {
    let mut scene = TextScene::new(String::from("ab"));
    scene.push('c');
    scene.push('\u{7f}');
    scene.push('\u{8}');
    assert_eq!(scene.text(), "abc");
    scene.pop();
    scene.pop();
    scene.pop();
    scene.pop();
    assert_eq!(scene.text(), "");
}

#[test]
fn vertex_buffer_grows_only_past_its_largest_layout() {
    let mut scene = TextScene::new(String::new());
    assert!(scene.record_vertex_count(10));
    assert_eq!(scene.vertex_count(), 10);
    assert!(!scene.record_vertex_count(4));
    assert_eq!(scene.vertex_count(), 4);
    assert!(!scene.record_vertex_count(10));
    assert!(scene.record_vertex_count(11));
}

#[test]
fn text_for_a_named_player() {
    let variables = TextVariables {
        player_name: String::from("Piet"),
        player_remaining_points: 3,
        ship_settings: [
            SpaceshipSettingValue { setting: SpaceshipSetting::Shields, value: 4 },
            SpaceshipSettingValue { setting: SpaceshipSetting::Firepower, value: 3 },
            SpaceshipSettingValue { setting: SpaceshipSetting::DefenseThickness, value: 0 },
            SpaceshipSettingValue { setting: SpaceshipSetting::DodgeChance, value: 0 },
        ],
        selected_input: spaceship_menu::text_scene::SelectedInput::Setting(SpaceshipSetting::DodgeChance),
        appendix: String::from("Press enter"),
    };
    let expected = [
        "Welcome Piet.",
        "",
        "Prepare for space invaders!",
        "Please input your spaceship settings...",
        "",
        "Points remaining: 3",
        "",
        "  Shields: 4",
        "  Firepower: 3",
        "  DefenseThickness: 0",
        "> DodgeChance: 0",
        " ",
        "  SUBMIT",
        " ",
        "Press enter",
    ]
    .join("\n");
    assert_eq!(generate_string(variables), expected);
}

#[test]
fn text_marks_submit() {
    let variables = TextVariables {
        player_name: String::from("Klaas"),
        player_remaining_points: 10,
        ship_settings: [SpaceshipSettingValue::new(SpaceshipSetting::Shields); 4],
        selected_input: spaceship_menu::text_scene::SelectedInput::Submit,
        appendix: String::new(),
    };
    let text = generate_string(variables);
    assert!(text.contains("\n> SUBMIT\n"));
    assert!(text.ends_with("\n \n"));
    assert_eq!(text.matches("  Shields: 0").count(), 4);
}

#[test]
fn largest_layout_is_kept_across_smaller_ones() {
    let mut scene = TextScene::new(String::new());
    scene.check_consistent();
    assert!(scene.record_vertex_count(7));
    assert!(!scene.record_vertex_count(3));
    assert!(!scene.record_vertex_count(7));
    assert_eq!(scene.vertex_count(), 7);
    scene.increase();
    scene.down();
    scene.decrease();
    scene.check_consistent();
}
