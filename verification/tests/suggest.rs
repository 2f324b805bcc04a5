use file_transfer::suggest::FileAutocomplete;

fn names(list: &[&str]) -> Vec<String> {
    list.iter().map(|name| name.to_string()).collect()
}

#[test]
fn suggestions_are_the_names_that_hold_the_input() {
    let entries = names(&["notes.txt", "photo.png", "Cargo.toml", "notes.bak", "src"]);
    let offered = FileAutocomplete.get_suggestions(&entries, "notes");
    assert_eq!(offered, names(&["notes.txt", "notes.bak"]));
}

#[test]
fn suggestions_match_anywhere_in_the_name() {
    let entries = names(&["alpha.txt", "beta.txt", "gamma.rs", "txt"]);
    let offered = FileAutocomplete.get_suggestions(&entries, "txt");
    assert_eq!(offered, names(&["alpha.txt", "beta.txt", "txt"]));
    let inner = FileAutocomplete.get_suggestions(&entries, "mm");
    assert_eq!(inner, names(&["gamma.rs"]));
}

#[test]
fn empty_input_suggests_every_name() {
    let entries = names(&["b", "a", "", "c"]);
    let offered = FileAutocomplete.get_suggestions(&entries, "");
    assert_eq!(offered, entries);
}

#[test]
fn input_found_nowhere_suggests_nothing() {
    let entries = names(&["one", "two", "three"]);
    let offered = FileAutocomplete.get_suggestions(&entries, "four");
    assert_eq!(offered, Vec::<String>::new());
}

#[test]
fn input_longer_than_a_name_does_not_match_it() {
    let entries = names(&["ab", "abc", "abcd"]);
    let offered = FileAutocomplete.get_suggestions(&entries, "abc");
    assert_eq!(offered, names(&["abc", "abcd"]));
}

#[test]
fn suggestions_tell_upper_from_lower_case() {
    let entries = names(&["README.md", "readme.md"]);
    let offered = FileAutocomplete.get_suggestions(&entries, "read");
    assert_eq!(offered, names(&["readme.md"]));
}

#[test]
fn suggestions_keep_order_and_repeats() {
    let entries = names(&["x1", "y", "x2", "x1"]);
    let offered = FileAutocomplete.get_suggestions(&entries, "x");
    assert_eq!(offered, names(&["x1", "x2", "x1"]));
}

#[test]
fn suggestions_from_an_empty_directory() {
    let entries: Vec<String> = Vec::new();
    let offered = FileAutocomplete.get_suggestions(&entries, "a");
    assert_eq!(offered, Vec::<String>::new());
}

#[test]
fn suggestions_match_whole_characters() {
    let entries = names(&["caf\u{e9}.txt", "cafe.txt", "\u{65e5}\u{672c}\u{8a9e}"]);
    let accented = FileAutocomplete.get_suggestions(&entries, "f\u{e9}");
    assert_eq!(accented, names(&["caf\u{e9}.txt"]));
    let wide = FileAutocomplete.get_suggestions(&entries, "\u{672c}");
    assert_eq!(wide, names(&["\u{65e5}\u{672c}\u{8a9e}"]));
}

#[test]
fn completion_is_the_highlighted_suggestion() {
    let replacement = FileAutocomplete.get_completion("no", Some("notes.txt".to_string()));
    assert_eq!(replacement, Some("notes.txt".to_string()));
}

#[test]
fn completion_does_not_depend_on_the_input() {
    let first = FileAutocomplete.get_completion("", Some("a".to_string()));
    let second = FileAutocomplete.get_completion("zzz", Some("a".to_string()));
    assert_eq!(first, second);
    assert_eq!(first, Some("a".to_string()));
}
