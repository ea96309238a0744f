use spaceship_menu::nickname_generator::{capitalize, make_vec, NicknameGenerator};

#[test]
fn test_generate_nickname() {
    let mut gen = NicknameGenerator::new("bad", "Man", vec![]);
    let result = gen.generate_nickname();
    let expected = "Bad Man";
    assert_eq!(expected, result);
}

#[test]
fn test_taken_nickname() {
    let mut gen = NicknameGenerator::new("bad", "man", vec![]);
    gen.generate_nickname();
    let result = gen.generate_nickname();
    let expected = "Bad Man 2";
    assert_eq!(expected, result);
}

#[test]
fn test_two_taken_nicknames() {
    let mut gen = NicknameGenerator::new("bad", "man", vec![]);
    gen.generate_nickname();
    gen.generate_nickname();
    let result = gen.generate_nickname();
    let expected = "Bad Man 3";
    assert_eq!(expected, result);
}

#[test]
fn test_taken_nicknames_constructor() {
    let mut gen = NicknameGenerator::new("bad", "man", vec![String::from("Bad Man")]);
    let result = gen.generate_nickname();
    let expected = "Bad Man 2";
    assert_eq!(expected, result);
}

#[test]
fn test_taken_nicknames_constructor_two() {
    let mut gen = NicknameGenerator::new("bad", "man", vec![String::from("Bad Man"), String::from("Bad Man 2")]);
    let result = gen.generate_nickname();
    let expected = "Bad Man 3";
    assert_eq!(expected, result);
}

#[test]
fn capitalize_upper_cases_first_letter_only() {
    assert_eq!(capitalize("bad"), "Bad");
    assert_eq!(capitalize("Man"), "Man");
    assert_eq!(capitalize("x"), "X");
    assert_eq!(capitalize("1st"), "1st");
    assert_eq!(capitalize("élan"), "Élan");
    assert_eq!(capitalize("ßa"), "Sa");
}

#[test]
fn make_vec_capitalizes_each_line() {
    assert_eq!(make_vec("bad\ngood\r\nugly\n"), vec!["Bad", "Good", "Ugly"]);
    assert_eq!(make_vec(""), Vec::<String>::new());
    assert_eq!(make_vec("tail\r"), vec!["Tail\r"]);
}

#[test]
fn generated_names_never_repeat() {
    let mut gen = NicknameGenerator::new("bad\nsad", "man\ncat", vec![]);
    let mut seen: Vec<String> = Vec::new();
    for _ in 0..30 {
        let name = gen.generate_nickname();
        assert!(!seen.contains(&name), "{} came twice", name);
        seen.push(name);
    }
}

#[test]
fn generate_from_given_words() {
    let mut gen = NicknameGenerator::new("bad", "man", vec![]);
    assert_eq!(gen.generate_nickname_from("Quick", "Fox"), "Quick Fox");
    assert_eq!(gen.generate_nickname_from("Quick", "Fox"), "Quick Fox 2");
    assert_eq!(gen.generate_nickname_from("Quick", "Fox 2"), "Quick Fox 2 2");
    assert_eq!(gen.generate_nickname_from("Quick", "Fox"), "Quick Fox 3");
}

#[test]
fn taken_name_with_number_counts_for_its_base() {
    let mut gen = NicknameGenerator::new("bad", "man", vec![String::from("Bad Man 7")]);
    assert_eq!(gen.generate_nickname(), "Bad Man 2");
}

#[test]
fn taken_name_with_float_suffix_counts_for_its_base() {
    let mut gen = NicknameGenerator::new("bad", "man", vec![String::from("Bad Man 1.5e3")]);
    assert_eq!(gen.generate_nickname(), "Bad Man 2");
    let mut gen = NicknameGenerator::new("bad", "man", vec![String::from("Bad Man inf")]);
    assert_eq!(gen.generate_nickname(), "Bad Man 2");
}

#[test]
fn taken_name_with_word_suffix_is_kept_whole() {
    let mut gen = NicknameGenerator::new("bad", "man", vec![String::from("Bad Man x")]);
    assert_eq!(gen.generate_nickname(), "Bad Man");
    assert_eq!(gen.generate_nickname_from("Bad Man", "x"), "Bad Man x 2");
}

#[test]
fn taken_number_without_space_registers_empty_name() {
    let mut gen = NicknameGenerator::new("bad", "man", vec![String::from("12")]);
    assert_eq!(gen.generate_nickname(), "Bad Man");
}

#[test]
fn counter_room_on_fresh_generator() {
    let gen = NicknameGenerator::new("bad", "man", vec![String::from("Bad Man")]);
    assert!(gen.has_counter_room());
}

#[test]
fn numbered_taken_list_is_never_handed_out() {
    let taken = vec![
        String::from("Bad Man"),
        String::from("Bad Man 2"),
        String::from("Sad Cat"),
        String::from("Bad Man 3"),
    ];
    let mut gen = NicknameGenerator::new("bad\nsad", "man\ncat", taken.clone());
    let mut handed: Vec<String> = Vec::new();
    for _ in 0..20 {
        let name = gen.generate_nickname();
        assert!(!taken.contains(&name), "{} was taken", name);
        assert!(!handed.contains(&name), "{} came twice", name);
        handed.push(name);
    }
}

#[test]
fn numbered_taken_list_continues_the_count() {
    let taken = vec![String::from("Bad Man"), String::from("Bad Man 2"), String::from("Bad Man 3")];
    let mut gen = NicknameGenerator::new("bad", "man", taken);
    assert_eq!(gen.generate_nickname(), "Bad Man 4");
    assert_eq!(gen.generate_nickname(), "Bad Man 5");
}
