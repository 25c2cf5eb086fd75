//! The text helpers on concrete strings.

use colony_core::textutil::{
    contains_pattern, count_pattern, replace_all, split_lines, starts_with_pattern, str_eq_lit,
    str_less,
};

#[test]
fn lines_split_like_child_output() {
    assert_eq!(
        split_lines(&"a\nb\nc".to_string()),
        vec!["a".to_string(), "b".to_string(), "c".to_string()]
    );
    assert_eq!(
        split_lines(&"a\r\nb\n".to_string()),
        vec!["a".to_string(), "b".to_string()]
    );
    assert_eq!(split_lines(&"".to_string()), Vec::<String>::new());
    assert_eq!(split_lines(&"\n".to_string()), vec!["".to_string()]);
    assert_eq!(
        split_lines(&"a\n\nb".to_string()),
        vec!["a".to_string(), "".to_string(), "b".to_string()]
    );
}

#[test]
fn replacement_scans_left_to_right() {
    assert_eq!(replace_all(&"aaa".to_string(), "aa", "b"), "ba");
    assert_eq!(replace_all(&"C:\\x\\y".to_string(), "\\", "/"), "C:/x/y");
    assert_eq!(replace_all(&"none".to_string(), "xyz", "q"), "none");
}

#[test]
fn searching_and_counting() {
    assert!(contains_pattern(&"abcdef".to_string(), "cde"));
    assert!(!contains_pattern(&"abcdef".to_string(), "xyz"));
    assert_eq!(count_pattern(&"x->y->z".to_string(), "->"), 2);
    assert_eq!(count_pattern(&"plain".to_string(), "->"), 0);
    assert!(starts_with_pattern(&"ColonyWSL (Default)".to_string(), "ColonyWSL"));
    assert!(!starts_with_pattern(&"Ubuntu".to_string(), "ColonyWSL"));
}

#[test]
fn lexicographic_order() {
    assert!(str_less(&"/a.img".to_string(), &"/b.img".to_string()));
    assert!(!str_less(&"/b.img".to_string(), &"/a.img".to_string()));
    assert!(str_less(&"/a".to_string(), &"/a.img".to_string()));
    assert!(!str_less(&"/a".to_string(), &"/a".to_string()));
}

#[test]
fn literal_equality() {
    assert!(str_eq_lit(&"Frontend".to_string(), "Frontend"));
    assert!(!str_eq_lit(&"Frontend".to_string(), "LocalMachine"));
}
