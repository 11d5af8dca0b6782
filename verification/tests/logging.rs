use rusty_irc::logging::{log_line, Level, LogConfig, LogSection};

fn section(error: Option<&str>, info: Option<&str>, debug: Option<&str>) -> LogConfig {
    LogConfig::Section(LogSection {
        error: error.map(|s| s.to_string()),
        info: info.map(|s| s.to_string()),
        debug: debug.map(|s| s.to_string()),
    })
}

#[test]
fn enabled_levels_are_printed_with_their_tag() {
    let c = section(Some("true"), Some("true"), Some("true"));
    assert_eq!(log_line(&c, Level::ERR, "boom"), Some("[ERROR] PLSHLDER: boom".to_string()));
    assert_eq!(log_line(&c, Level::INFO, "hello"), Some("[INFO] PLSHLDER: hello".to_string()));
    assert_eq!(log_line(&c, Level::DEBUG, ""), Some("[DEBUG] PLSHLDER: ".to_string()));
}

#[test]
fn levels_not_set_to_true_are_silent() {
    let c = section(Some("false"), Some("TRUE"), None);
    assert_eq!(log_line(&c, Level::ERR, "x"), None);
    assert_eq!(log_line(&c, Level::INFO, "x"), None);
    assert_eq!(log_line(&c, Level::DEBUG, "x"), None);
}

#[test]
fn each_level_reads_its_own_key() {
    let c = section(None, Some("true"), None);
    assert_eq!(log_line(&c, Level::ERR, "x"), None);
    assert_eq!(log_line(&c, Level::INFO, "x"), Some("[INFO] PLSHLDER: x".to_string()));
    assert_eq!(log_line(&c, Level::DEBUG, "x"), None);
}

#[test]
fn missing_log_section_is_reported() {
    assert_eq!(
        log_line(&LogConfig::NoLogSection, Level::INFO, "x"),
        Some("Logging is broken!\nReason: There is no log section in config.ini".to_string())
    );
}

#[test]
fn unreadable_configuration_is_reported() {
    assert_eq!(
        log_line(&LogConfig::Unreadable("no such file".to_string()), Level::DEBUG, "x"),
        Some("Logging is broken!\nReason: no such file".to_string())
    );
}
