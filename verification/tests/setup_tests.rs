use hamster::setup::HamsterConfig;

#[test]
fn test_default_config_paths() {
    let config = HamsterConfig::default();
    assert!(config.config_file.contains(".hamster.toml"));
    assert!(config.index_dir.contains(".hamster_index"));
}

#[test]
fn test_default_config() {
    let config = HamsterConfig::default();
    assert_eq!(config.name, "Hamster User");
    assert_eq!(config.primary_email, "hamster@example.com");
    assert_eq!(config.maildir, "./mail");
}

#[test]
fn test_with_paths() {
    let config = HamsterConfig::with_paths(
        "Test",
        "test@test.com",
        "/tmp/mail",
        "/tmp/.hamster.toml".to_string(),
        "/tmp/.hamster_index".to_string(),
    );
    assert_eq!(config.name, "Test");
    assert_eq!(config.config_file, "/tmp/.hamster.toml");
    assert_eq!(config.index_dir, "/tmp/.hamster_index");
}

use hamster::setup::{
    apply_tweak_choice, input_or_default, is_affirmative, join_path, paths_under, suggest_rules,
    suggest_tags, TweakAction,
};

#[test]
fn folder_names_suggest_tags() {
    assert_eq!(suggest_tags("INBOX"), vec!["inbox".to_string()]);
    assert_eq!(suggest_tags("Sent Drafts"), vec!["draft".to_string(), "sent".to_string()]);
    assert_eq!(suggest_tags("Trash/Bin"), vec!["deleted".to_string()]);
    assert!(suggest_tags("Projects").is_empty());
}

#[test]
fn rules_are_suggested_only_for_known_folders() {
    let rules = suggest_rules(&vec!["INBOX".to_string(), "Projects".to_string(), "Junk".to_string()]);
    assert_eq!(rules.len(), 2);
    assert_eq!(rules[0].pattern, "INBOX");
    assert_eq!(rules[0].tags, vec!["inbox".to_string()]);
    assert!(!rules[0].inherit);
    assert_eq!(rules[1].pattern, "Junk");
    assert_eq!(rules[1].tags, vec!["spam".to_string()]);
}

#[test]
fn answers_and_defaults() {
    assert!(is_affirmative(""));
    assert!(is_affirmative(" Y "));
    assert!(is_affirmative("yes"));
    assert!(!is_affirmative("no"));
    assert!(!is_affirmative("yess"));
    assert_eq!(input_or_default("   ", "Bob"), "Bob");
    assert_eq!(input_or_default(" Ann ", "Bob"), "Ann");
}

#[test]
fn paths_are_joined_with_one_slash() {
    assert_eq!(join_path("/home/h", "x"), "/home/h/x");
    assert_eq!(join_path("/home/h/", "x"), "/home/h/x");
    assert_eq!(join_path("", "x"), "x");
    let (c, i) = paths_under("/home/h");
    assert_eq!((c.as_str(), i.as_str()), ("/home/h/.hamster.toml", "/home/h/.hamster_index"));
}

#[test]
fn tweak_menu_toggles_and_dispatches() {
    let mut config = HamsterConfig::default();
    assert!(matches!(apply_tweak_choice(&mut config, " 3 "), TweakAction::FolderTagsToggled));
    assert!(config.folder_tags.enabled);
    assert!(matches!(apply_tweak_choice(&mut config, "4"), TweakAction::FlagSyncToggled));
    assert!(config.folder_tags.sync_flags);
    assert!(matches!(apply_tweak_choice(&mut config, "3"), TweakAction::FolderTagsToggled));
    assert!(!config.folder_tags.enabled);
    assert!(matches!(apply_tweak_choice(&mut config, "1"), TweakAction::EditIdentity));
    assert!(matches!(apply_tweak_choice(&mut config, "7"), TweakAction::SaveAndQuit));
    assert!(matches!(apply_tweak_choice(&mut config, "8"), TweakAction::Unrecognised));
    assert!(matches!(apply_tweak_choice(&mut config, "12"), TweakAction::Unrecognised));
}

#[test]
fn suggestions_are_ascending_keyword_tags() {
    assert_eq!(
        suggest_tags("INBOX/Sent-Junk"),
        vec!["inbox".to_string(), "sent".to_string(), "spam".to_string()]
    );
    assert_eq!(
        suggest_tags("archive deleted draft inbox sent spam"),
        hamster::folder_tags::suggest_tags_for_folder("archive deleted draft inbox sent spam")
    );
}
