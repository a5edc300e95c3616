use spm::config::{Config, Shell};

#[test]
fn test_default_config() {
    let config = Config::default();
    assert!(!config.use_zellij);
    assert!(config.default_shell.is_none());
}

#[test]
fn test_config_get() {
    let config = Config { use_zellij: true, default_shell: Some(Shell::Fish) };
    assert_eq!(config.get("use_zellij"), Some("true".to_string()));
    assert_eq!(config.get("default_shell"), Some("fish".to_string()));
    assert_eq!(config.get("unknown"), None);
}

#[test]
fn test_config_set() {
    let mut config = Config::default();
    config.set("use_zellij", "true").unwrap();
    assert!(config.use_zellij);

    config.set("default_shell", "zsh").unwrap();
    assert_eq!(config.default_shell, Some(Shell::Zsh));
}

#[test]
fn test_config_set_invalid_key() {
    let mut config = Config::default();
    let result = config.set("invalid_key", "value");
    assert!(result.is_err());
}

#[test]
fn test_shell_display() {
    assert_eq!(Shell::Zsh.as_str(), "zsh");
    assert_eq!(Shell::Bash.as_str(), "bash");
    assert_eq!(Shell::Fish.as_str(), "fish");
}

#[test]
fn test_shell_parse() {
    assert_eq!(Shell::parse("zsh").unwrap(), Shell::Zsh);
    assert_eq!(Shell::parse("bash").unwrap(), Shell::Bash);
    assert_eq!(Shell::parse("fish").unwrap(), Shell::Fish);
}

#[test]
fn test_config_set_invalid_value() {
    let mut config = Config::default();
    assert!(config.set("use_zellij", "yes").is_err());
    assert!(config.set("default_shell", "tcsh").is_err());
    assert!(!config.use_zellij);
    assert!(config.default_shell.is_none());
}

#[test]
fn test_config_get_unset_shell() {
    let config = Config::default();
    assert_eq!(config.get("default_shell"), None);
    assert_eq!(config.get("use_zellij"), Some("false".to_string()));
}

#[test]
fn test_config_path() {
    assert_eq!(Config::path("/home/u/.config/spm"), "/home/u/.config/spm/config.json");
}
