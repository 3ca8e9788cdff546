use near_store::text::{chars_of, find, is_text, lines, same_text, split, split_each, string_of};

fn strings(parts: &[&[char]]) -> Vec<String> {
    parts.iter().map(|part| string_of(part)).collect()
}

#[test]
fn characters_make_up_the_text() {
    assert_eq!(chars_of("a\u{e9}b"), vec!['a', '\u{e9}', 'b']);
    assert_eq!(string_of(&['a', '\u{e9}', 'b']), "a\u{e9}b");
    assert_eq!(string_of(&[]), "");
}

#[test]
fn texts_are_compared_by_their_characters() {
    assert!(same_text(&['a', 'b'], &['a', 'b']));
    assert!(!same_text(&['a', 'b'], &['a']));
    assert!(!same_text(&['a', 'b'], &['a', 'c']));
    assert!(is_text(&['S', 'U', 'M'], "SUM"));
    assert!(!is_text(&['S', 'U', 'M'], "SU"));
    assert!(!is_text(&['S', 'U'], "SUM"));
    assert!(is_text(&[], ""));
}

#[test]
fn the_first_occurrence_is_found() {
    let text = chars_of("aXbXX");
    assert_eq!(find(&text, &['X']), Some(1));
    assert_eq!(find(&text, &['X', 'X']), Some(3));
    assert_eq!(find(&text, &['c']), None);
    assert_eq!(find(&text, &[]), Some(0));
    assert_eq!(find(&['a'], &['a', 'b']), None);
}

#[test]
fn splitting_agrees_with_the_standard_library() {
    for text in ["", "a", " ", "a b", " a  b ", "a : b : c", " : ", " :  : x", ": : :"] {
        for sep in [" ", " : "] {
            let expected: Vec<String> = text.split(sep).map(|s| s.to_string()).collect();
            assert_eq!(strings(&split(&chars_of(text), &chars_of(sep))), expected, "{text:?}");
        }
        let cs = chars_of(text);
        let both = split_each(&split(&cs, &chars_of(" : ")), &[' ']);
        let expected: Vec<String> =
            text.split(" : ").flat_map(|v| v.split(" ")).map(|s| s.to_string()).collect();
        assert_eq!(strings(&both), expected, "{text:?}");
    }
}

#[test]
fn lines_agree_with_the_standard_library() {
    for text in ["", "\n", "a", "a\n", "a\nb", "a\r\nb\r\n", "a\r", "\r\n\n\r\r\n", "a\rb\n\nc"] {
        let expected: Vec<String> = text.lines().map(|s| s.to_string()).collect();
        assert_eq!(strings(&lines(&chars_of(text))), expected, "{text:?}");
    }
}
