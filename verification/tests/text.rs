use steam_common_games::text::chars_of;
use steam_common_games::text::same_text;

#[test]
fn a_string_has_its_characters() {
    assert_eq!(chars_of("aé日🎮\n"), vec!['a', 'é', '日', '🎮', '\n']);
    assert!(chars_of("").is_empty());
}

#[test]
fn texts_are_the_same_when_every_character_is() {
    assert!(same_text("help", "help"));
    assert!(same_text("", ""));
    assert!(!same_text("help", "Help"));
    assert!(!same_text("help", "help "));
    assert!(!same_text("", "a"));
}
