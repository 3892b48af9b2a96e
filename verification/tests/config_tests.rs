use rustle::config::{
    interface_language, language_file_path, language_from_locale, resolve_language, BundledLanguage,
    Config, ConfigManager, SettingsDialog, StoredConfig, DEFAULT_PORT,
};

#[test]
fn defaults() {
    let c = Config::defaults("myhost".to_string());
    assert_eq!(c.network.port, 49242);
    assert_eq!(DEFAULT_PORT, 49242);
    assert_eq!(c.network.discovery_timeout_secs, 5);
    assert_eq!(c.network.static_peers, Some(vec![]));
    assert_eq!(c.network.scan_subnets, Some(vec![]));
    assert_eq!(c.general.default_download_path, "~/Downloads");
    assert!(c.general.show_notifications);
    assert_eq!(c.general.language, None);
    assert_eq!(c.user.display_name, Some("myhost".to_string()));
    assert_eq!(c.user.avatar_path, None);
}

#[test]
fn manager_uses_loaded_config_or_defaults() {
    let mut loaded = Config::defaults("x".to_string());
    loaded.network.port = 7000;
    let m = ConfigManager::new("/cfg/config.yaml".to_string(), StoredConfig::Loaded(loaded), "host".to_string());
    assert_eq!(m.config.network.port, 7000);
    assert_eq!(m.config_path(), "/cfg/config.yaml");
    for stored in [StoredConfig::Missing, StoredConfig::Unreadable, StoredConfig::Malformed] {
        let m = ConfigManager::new("p".to_string(), stored, "host".to_string());
        assert_eq!(m.config.network.port, 49242);
        assert_eq!(m.config.user.display_name, Some("host".to_string()));
    }
    assert!(StoredConfig::Missing.should_write_defaults());
    assert!(!StoredConfig::Malformed.should_write_defaults());
    assert!(StoredConfig::Unreadable.needs_defaults());
}

#[test]
fn languages() {
    assert_eq!(language_file_path("de_DE"), "src/i18n/de_DE.yml");
    assert_eq!(language_from_locale(&Some("de_DE.UTF-8".to_string()), "en_US"), "de_DE");
    assert_eq!(language_from_locale(&None, "en_US.UTF-8"), "en_US");
    assert_eq!(language_from_locale(&Some("C".to_string()), "en_US"), "C");
    assert_eq!(interface_language(&Some("de_DE".to_string()), &Some("fr_FR.UTF-8".to_string())), "de_DE");
    assert_eq!(interface_language(&None, &Some("fr_FR.UTF-8".to_string())), "fr_FR");
    assert_eq!(resolve_language("de_DE"), (BundledLanguage::German, false));
    assert_eq!(resolve_language("en_US"), (BundledLanguage::English, false));
    assert_eq!(resolve_language("fr_FR"), (BundledLanguage::English, true));
    assert_eq!(BundledLanguage::German.code(), "de_DE");
}

#[test]
fn settings_dialog_saves_edits() {
    let m = ConfigManager::new("p".to_string(), StoredConfig::Missing, "host".to_string());
    let mut d = SettingsDialog::new(m, &Some("de_DE.UTF-8".to_string()));
    assert_eq!(d.display_name, "host");
    assert_eq!(d.avatar_path, "");
    assert_eq!(d.download_path, "~/Downloads");
    assert_eq!(d.language, "de_DE");
    d.display_name = "   ".to_string();
    d.avatar_path = " /home/me/me.png".to_string();
    d.download_path = "/tmp".to_string();
    d.show_notifications = false;
    d.language = "en_US".to_string();
    d.save();
    let c = &d.config_manager.config;
    assert_eq!(c.user.display_name, None);
    assert_eq!(c.user.avatar_path, Some(" /home/me/me.png".to_string()));
    assert_eq!(c.general.default_download_path, "/tmp");
    assert!(!c.general.show_notifications);
    assert_eq!(c.general.language, Some("en_US".to_string()));
}

#[test]
fn settings_dialog_default_language() {
    let m = ConfigManager::new("p".to_string(), StoredConfig::Missing, "host".to_string());
    let d = SettingsDialog::new(m, &None);
    assert_eq!(d.language, "en_US");
}

#[test]
fn status_colors() {
    let m = ConfigManager::new("p".to_string(), StoredConfig::Missing, "host".to_string());
    let mut d = SettingsDialog::new(m, &None);
    assert!(!d.status_is_error());
    d.set_status("Settings saved".to_string());
    assert!(!d.status_is_error());
    d.set_status("Error: permission denied".to_string());
    assert!(d.status_is_error());
    d.set_status("Fehler beim Speichern".to_string());
    assert!(d.status_is_error());
}
