use rimay_type::settings::{Configuration, KeyConfig, SettingsError};

fn key(hotkey: &str, model: &str, language: Option<&str>, prompt: Option<&str>) -> KeyConfig {
    KeyConfig {
        hotkey: hotkey.to_string(),
        model: model.to_string(),
        language: language.map(|s| s.to_string()),
        prompt: prompt.map(|s| s.to_string()),
    }
}

#[test]
fn parse_default_config() {
    let config = Configuration {
        keys: vec![key("Super+;", "whisper-large-v3-turbo", Some("en"), None)],
    };
    println!("{config:#?}");

    for binding in config.parse_keys().unwrap().bindings {
        println!("{}: {:?}", binding.hotkey, binding.opts);
    }
}

#[test]
fn parse_keys_resolves_in_order() {
    let config = Configuration {
        keys: vec![
            key("Super+;", "m1", Some("en"), None),
            key("Ctrl+Shift+A", "m2", None, Some("names: Ada")),
        ],
    };
    let registry = config.parse_keys().unwrap();
    assert_eq!(registry.bindings.len(), 2);
    assert_eq!(registry.bindings[0].hotkey, "Super+;");
    assert_eq!(registry.bindings[0].opts.model, "m1");
    assert_eq!(registry.bindings[0].opts.language.as_deref(), Some("en"));
    assert_eq!(registry.bindings[1].hotkey, "Ctrl+Shift+A");
    assert_eq!(registry.bindings[1].opts.prompt.as_deref(), Some("names: Ada"));
    assert_ne!(registry.bindings[0].id, registry.bindings[1].id);
}

#[test]
fn invalid_hotkey_is_rejected() {
    let config = Configuration {
        keys: vec![key("Bogus+Q", "m1", None, None)],
    };
    match config.parse_keys() {
        Err(SettingsError::InvalidHotkey { hotkey }) => assert_eq!(hotkey, "Bogus+Q"),
        other => panic!("expected an invalid-hotkey error, got {other:?}"),
    }
}

#[test]
fn duplicate_hotkeys_are_rejected_with_counts() {
    let config = Configuration {
        keys: vec![
            key("Super+;", "m1", None, None),
            key("Ctrl+A", "m2", None, None),
            key("super+;", "m3", None, None),
            key("Ctrl+A", "m4", None, None),
            key("CTRL+a", "m5", None, None),
        ],
    };
    match config.parse_keys() {
        Err(SettingsError::DuplicateKeys { duplicates }) => {
            assert_eq!(duplicates.len(), 2);
            let semi = duplicates.iter().find(|d| d.hotkey == "Super+;").unwrap();
            assert_eq!(semi.count, 2);
            let ctrl_a = duplicates.iter().find(|d| d.hotkey == "Ctrl+A").unwrap();
            assert_eq!(ctrl_a.count, 3);
        },
        other => panic!("expected a duplicate-keys error, got {other:?}"),
    }
}

#[test]
fn duplicate_error_message_names_every_binding() {
    let config = Configuration {
        keys: vec![
            key("Super+;", "m1", None, None),
            key("Ctrl+A", "m2", None, None),
            key("Super+;", "m3", None, None),
            key("Ctrl+A", "m4", None, None),
            key("Ctrl+A", "m5", None, None),
        ],
    };
    let err = config.parse_keys().unwrap_err();
    let message = err.message();
    assert_eq!(
        message,
        "Duplicate keys found on configuration file:\n\
         - Super+; defined 2 times.\n\
         - Ctrl+A defined 3 times."
    );
}

#[test]
fn invalid_hotkey_message_names_the_hotkey() {
    let config = Configuration {
        keys: vec![key("NoSuchKey", "m1", None, None)],
    };
    let err = config.parse_keys().unwrap_err();
    assert_eq!(err.message(), "Failed to parse hotkey: NoSuchKey");
}
