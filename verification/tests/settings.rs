use std::path::PathBuf;

use haptic_core::file::{seeded_directories, sidecar_relative, AppRoot, Directory, SETTINGS_FILE};
use haptic_core::migrate::Versions;
use haptic_core::network::HttpError;
use haptic_core::state::UiSettings;
use haptic_core::text::{count_text, decimal_text, signed_text};

#[test]
fn app_root_keeps_its_directories() {
    let root = AppRoot::new(PathBuf::from("/c"), PathBuf::from("/d"));
    assert_eq!(root.config_dir(), &PathBuf::from("/c"));
    assert_eq!(root.data_dir(), &PathBuf::from("/d"));
}

#[test]
fn directory_folders() {
    assert_eq!(Directory::BhapticsCache.sub_path(), "data");
    assert_eq!(Directory::Logs.sub_path(), "logs");
    assert_eq!(Directory::Maps.sub_path(), "map_configs");
    assert_eq!(Directory::CamMaps.sub_path(), "cam_configs");
    assert_eq!(Directory::Security.sub_path(), "security");
    assert_eq!(seeded_directories(), [Directory::Maps, Directory::Security]);
    assert_eq!(sidecar_relative("register.exe"), "sidecars/register.exe");
    assert_eq!(SETTINGS_FILE, "memory.json");
}

#[test]
fn settings_versions() {
    assert_eq!(Versions::from_num(0), Some(Versions::V0));
    assert_eq!(Versions::from_num(1), None);
}

#[test]
fn ui_defaults_to_dark() {
    assert_eq!(UiSettings::default().theme, "dark");
}

#[test]
fn http_error_message() {
    assert_eq!(HttpError("timed out".to_string()).message(), "timed out");
}

#[test]
fn decimal_texts() {
    assert_eq!(decimal_text(0), "0");
    assert_eq!(decimal_text(4294967295), "4294967295");
    assert_eq!(count_text(120), "120");
    assert_eq!(signed_text(-7), "-7");
    assert_eq!(signed_text(i64::MIN), i64::MIN.to_string());
    assert_eq!(signed_text(12), "12");
}
