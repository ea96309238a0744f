use spaceship_menu::execut_api::{get_endpoint, parse_taken_nicknames, NicknameListError};

#[test]
fn execut_api_test_string_deserialization() {
    let deserialized: Vec<String> = parse_taken_nicknames("[\"piet\", \"klaas\"]").unwrap();
    let expected: Vec<String> = vec![String::from("piet"), String::from("klaas")];
    assert_eq!(expected, deserialized);
}

#[test]
fn empty_list_of_taken_nicknames() {
    assert_eq!(parse_taken_nicknames("[]"), Ok(Vec::new()));
}

#[test]
fn answers_that_are_not_string_arrays() {
    assert_eq!(parse_taken_nicknames("[1, 2]"), Err(NicknameListError::NotAStringArray));
    assert_eq!(parse_taken_nicknames("{\"a\": \"b\"}"), Err(NicknameListError::NotAStringArray));
    assert_eq!(parse_taken_nicknames("not json"), Err(NicknameListError::NotAStringArray));
}

#[test]
fn endpoint_of_taken_nicknames() {
    assert_eq!(get_endpoint("taken-nicknames"), "http://localhost:4444/taken-nicknames");
    assert_eq!(get_endpoint(""), "http://localhost:4444/");
}
