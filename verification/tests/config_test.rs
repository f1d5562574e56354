use mnemosctl::config::{
    config_path, mask_api_key, normalize_base_url, sync_db_path, Config, ConfigError, FileConfig,
};

fn some(value: &str) -> Option<String> {
    Some(value.to_string())
}

fn file(base_url: Option<&str>, api_key: Option<&str>) -> FileConfig {
    FileConfig { base_url: base_url.map(str::to_string), api_key: api_key.map(str::to_string) }
}

#[test]
fn environment_wins_over_the_file() {
    let config = Config::load(
        some(" http://192.168.207.67:5002/ "),
        some("env-key"),
        file(Some("http://file"), Some("file-key")),
    )
    .unwrap();
    assert_eq!(config.base_url, "http://192.168.207.67:5002");
    assert_eq!(config.api_key, "env-key");
}

#[test]
fn blank_environment_falls_back_to_the_file() {
    let config =
        Config::load(some("  "), None, file(Some("http://file//"), Some(" file-key\n"))).unwrap();
    assert_eq!(config.base_url, "http://file");
    assert_eq!(config.api_key, "file-key");
}

#[test]
fn each_setting_is_resolved_by_itself() {
    let config =
        Config::load(some("http://env"), some(""), file(Some("http://file"), Some("file-key")))
            .unwrap();
    assert_eq!(config.base_url, "http://env");
    assert_eq!(config.api_key, "file-key");
}

#[test]
fn missing_base_url_comes_first() {
    let error = Config::load(None, None, FileConfig::default()).unwrap_err();
    assert_eq!(error, ConfigError::MissingBaseUrl);
    assert_eq!(
        error.message(),
        "MNEMOS_BASE is not set and ~/.mnemos/config.toml has no base_url"
    );
    let error = Config::load(some(" "), some("key"), file(Some(""), None)).unwrap_err();
    assert_eq!(error, ConfigError::MissingBaseUrl);
}

#[test]
fn missing_api_key_is_reported() {
    let error = Config::load(some("http://env"), None, file(None, Some("\t"))).unwrap_err();
    assert_eq!(error, ConfigError::MissingApiKey);
    assert_eq!(
        error.message(),
        "MNEMOS_API_KEY is not set and ~/.mnemos/config.toml has no api_key"
    );
}

#[test]
fn a_base_url_of_slashes_is_left_empty() {
    assert_eq!(Config::load(some("//"), some("k"), FileConfig::default()).unwrap().base_url, "");
    assert_eq!(normalize_base_url(" http://h/a/ "), "http://h/a");
    assert_eq!(normalize_base_url("http://h / "), "http://h ");
}

#[test]
fn only_eight_characters_of_a_key_are_shown() {
    assert_eq!(mask_api_key("0123456789"), "01234567...");
    assert_eq!(mask_api_key("01234567xyz"), mask_api_key("01234567abcdef"));
    assert_eq!(mask_api_key("short"), "short...");
    assert_eq!(mask_api_key("01234567"), mask_api_key("012345678"));
    assert_eq!(mask_api_key(""), "...");
    assert_eq!(mask_api_key("\u{e4}\u{e4}\u{e4}\u{e4}\u{e4}\u{e4}\u{e4}\u{e4}\u{e4}").chars().count(), 11);
}

#[test]
fn the_report_masks_the_key() {
    let config =
        Config { base_url: "http://h".to_string(), api_key: "0123456789".to_string() };
    assert_eq!(config.masked_api_key(), "01234567...");
    assert_eq!(
        config.report(),
        vec!["base_url=http://h".to_string(), "api_key=01234567...".to_string()]
    );
}

#[test]
fn files_lie_below_the_home_directory() {
    assert_eq!(config_path(), vec![".mnemos".to_string(), "config.toml".to_string()]);
    assert_eq!(sync_db_path(), vec![".mnemos".to_string(), "mnemosctl.db".to_string()]);
}
