use spaceship_menu::text::{chars_of, find_last_space, is_float_text, join_strings, replace_chars, split_lines, u32_to_string};

fn chars(s: &str) -> Vec<char> {
    s.chars().collect()
}

#[test]
fn decimal_formatting() {
    assert_eq!(u32_to_string(0), "0");
    assert_eq!(u32_to_string(7), "7");
    assert_eq!(u32_to_string(10), "10");
    assert_eq!(u32_to_string(1234), "1234");
    assert_eq!(u32_to_string(u32::MAX), u32::MAX.to_string());
    for n in [1u32, 9, 99, 100, 101, 65535, 1_000_000] {
        assert_eq!(u32_to_string(n), n.to_string());
    }
}

#[test]
fn chars_of_keeps_every_char() {
    assert_eq!(chars_of("héllo"), vec!['h', 'é', 'l', 'l', 'o']);
    assert_eq!(chars_of(""), Vec::<char>::new());
}

#[test]
fn float_syntax_agrees_with_std() {
    let samples = [
        "", "1", "12", "-3", "+4", "1.", ".5", ".", "1.5", "1e5", "1E5", "1e", "e5", "1e+5", "1e-5", "1e+",
        "1.5e3", ".e1", "1..2", "1.2.3", "inf", "-inf", "+Infinity", "INF", "infinity", "infinit", "nan", "NaN",
        "-nan", "nAn", "+", "-", "++1", "1_000", " 1", "1 ", "0x10", "5f", "2", "12abc", "１",
    ];
    for s in samples {
        let expected = s.parse::<f64>().is_ok();
        let v = chars(s);
        assert_eq!(is_float_text(&v, 0, v.len()), expected, "{:?}", s);
    }
}

#[test]
fn float_syntax_on_a_slice() {
    let v = chars("Bad Man 2");
    assert!(is_float_text(&v, 8, 9));
    assert!(!is_float_text(&v, 4, 9));
}

#[test]
fn lines_agree_with_std() {
    let samples = ["", "a", "a\n", "a\nb", "a\r\nb\r\n", "\n", "\n\n", "a\rb", "tail\r", "x\n\ny"];
    for s in samples {
        let expected: Vec<Vec<char>> = s.lines().map(|l| l.chars().collect()).collect();
        assert_eq!(split_lines(&chars(s)), expected, "{:?}", s);
    }
}

#[test]
fn replace_agrees_with_std() {
    let samples = ["  Shields: 0", "    x", "a  b  c", " ", "", "   ", "no spaces"];
    for s in samples {
        let expected: Vec<char> = s.replace("  ", "> ").chars().collect();
        assert_eq!(replace_chars(&chars(s), &chars("  "), &chars("> ")), expected, "{:?}", s);
    }
    assert_eq!(replace_chars(&chars("aaa"), &chars("aa"), &chars("b")), chars("ba"));
}

#[test]
fn join_agrees_with_std() {
    let parts = vec![String::from("a"), String::new(), String::from("b")];
    assert_eq!(join_strings(&parts, "\n"), parts.join("\n"));
    assert_eq!(join_strings(&Vec::new(), ", "), "");
    assert_eq!(join_strings(&vec![String::from("one")], ", "), "one");
}

#[test]
fn last_space() {
    assert_eq!(find_last_space(&chars("Bad Man 2")), Some(7));
    assert_eq!(find_last_space(&chars("Bad")), None);
    assert_eq!(find_last_space(&chars("x ")), Some(1));
}
