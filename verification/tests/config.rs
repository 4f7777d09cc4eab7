use nokk_core::config::{config_location, ConfigError};
use nokk_core::{AnimationId, AppConfig, PetMood};

#[test]
fn defaults_are_v1_values() {
    let config = AppConfig::default();
    assert_eq!(config.scale, 1);
    assert_eq!(config.last_pose, AnimationId::Idle);
    assert_eq!(config.mood, PetMood::Calm);
    assert!(!config.paused);
}

#[test]
fn config_location_prefers_xdg() {
    let (base, parts) = config_location(false, None, Some("/x"), Some("/h")).unwrap();
    assert_eq!(base, "/x");
    assert_eq!(parts, vec!["nokk", "config.ron"]);
    let (base, parts) = config_location(false, None, None, Some("/h")).unwrap();
    assert_eq!(base, "/h");
    assert_eq!(parts, vec![".config", "nokk", "config.ron"]);
    let (base, parts) = config_location(true, Some("C:"), Some("/x"), None).unwrap();
    assert_eq!(base, "C:");
    assert_eq!(parts, vec!["Nokk", "config.ron"]);
    assert!(matches!(config_location::<&str>(false, Some("C:"), None, None), Err(ConfigError::MissingHome)));
    assert!(matches!(config_location::<&str>(true, None, Some("/x"), Some("/h")), Err(ConfigError::MissingHome)));
}

#[test]
fn config_errors_read_as_sentences() {
    assert_eq!(ConfigError::MissingHome.message(), "could not locate a config directory");
    assert_eq!(ConfigError::Ron("bad".to_string()).message(), "config parse error: bad");
    let io = ConfigError::Io(std::io::Error::new(std::io::ErrorKind::Other, "disk gone"));
    assert_eq!(io.message(), "config io error: disk gone");
}
