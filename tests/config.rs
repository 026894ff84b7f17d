use file_endec::config::{DecryptConfig, EncryptConfig};
use file_endec::key::Key;
use file_endec::strategy::Verbosity;

#[test]
fn dry_run_never_overwrites_or_deletes() {
    let c = EncryptConfig::new(
        vec!["file.txt".to_string()],
        Key::new("abcdef123!"),
        Verbosity::Normal,
        true,
        true,
        None,
        ".enc".to_string(),
        true,
    );
    assert!(c.dry_run());
    assert!(!c.overwrite && !c.delete_input);
    assert_eq!(c.output_extension(), ".enc");
    assert_eq!(c.output_dir(), None);
}

#[test]
fn encrypt_config_keeps_settings() {
    let c = EncryptConfig::new(
        vec!["file.txt".to_string(), "another_file.txt".to_string()],
        Key::new("abcdef123!"),
        Verbosity::Debug,
        true,
        true,
        Some("/tmp/hello".to_string()),
        ".secret".to_string(),
        false,
    );
    assert!(c.overwrite && c.delete_input && !c.dry_run());
    assert_eq!(c.output_dir(), Some(&"/tmp/hello".to_string()));
    assert_eq!(c.files.len(), 2);
    assert!(c.raw_key == Key::new("abcdef123!"));
}

#[test]
fn decrypt_config_keeps_settings() {
    let c = DecryptConfig::new(
        vec!["file.txt".to_string()],
        Key::new("abcdef123!"),
        Verbosity::Quiet,
        false,
        true,
        Some("/tmp/hello".to_string()),
    );
    assert!(!c.overwrite && c.delete_input);
    assert_eq!(c.verbosity, Verbosity::Quiet);
    assert_eq!(c.output_dir(), Some(&"/tmp/hello".to_string()));
}
