use vstd::prelude::*;

verus! {

/// Severity of a log line.
pub enum Level {
    ERR,
    INFO,
    DEBUG,
}

/// The `log` section of the configuration file, as plain values: for each
/// level, the value of its key (`error`, `info`, `debug`) when the key is there.
pub struct LogSection {
    pub error: Option<String>,
    pub info: Option<String>,
    pub debug: Option<String>,
}

/// What reading the configuration file gave.
pub enum LogConfig {
    /// The file could not be read; the text says why.
    Unreadable(String),
    /// The file has no `log` section.
    NoLogSection,
    /// The file's `log` section.
    Section(LogSection),
}

/// The tag that starts a line of the given level.
pub open spec fn level_tag(level: Level) -> Seq<char> {
    match level {
        Level::ERR => "[ERROR]"@,
        Level::INFO => "[INFO]"@,
        Level::DEBUG => "[DEBUG]"@,
    }
}

/// The configured value of the key that switches the given level on or off.
pub open spec fn level_setting(section: LogSection, level: Level) -> Option<String> {
    match level {
        Level::ERR => section.error,
        Level::INFO => section.info,
        Level::DEBUG => section.debug,
    }
}

/// The time stamp that every log line carries.
pub open spec fn time_stamp() -> Seq<char> {
    "PLSHLDER"@
}

/// The line that logging `msg` at `level` prints under `config`, or `None`
/// when nothing is printed. A level is printed only when its key is set to
/// exactly `true`; a broken configuration is reported in place of the line.
pub open spec fn log_output(config: LogConfig, level: Level, msg: Seq<char>) -> Option<Seq<char>> {
    match config {
        LogConfig::Unreadable(reason) => Some("Logging is broken!\nReason: "@ + reason@),
        LogConfig::NoLogSection => Some(
            "Logging is broken!\nReason: There is no log section in config.ini"@,
        ),
        LogConfig::Section(section) => match level_setting(section, level) {
            Some(v) => if v@ == "true"@ {
                Some(level_tag(level) + " "@ + time_stamp() + ": "@ + msg)
            } else {
                None
            },
            None => None,
        },
    }
}

/// Decides what logging `err_str` at `err_level` prints, given what was read
/// from the configuration file.
pub fn log_line(config: &LogConfig, err_level: Level, err_str: &str) -> (line: Option<String>)
    ensures
        match line {
            Some(l) => log_output(*config, err_level, err_str@) == Some(l@),
            None => log_output(*config, err_level, err_str@) is None,
        },
{
    let log_section = match config {
        LogConfig::Unreadable(reason) => {
            let mut out = "Logging is broken!\nReason: ".to_owned();
            out.append(reason.as_str());
            return Some(out);
        },
        LogConfig::NoLogSection => {
            return Some("Logging is broken!\nReason: There is no log section in config.ini".to_owned());
        },
        LogConfig::Section(section) => section,
    };
    let (setting, tag) = match err_level {
        Level::ERR => (&log_section.error, "[ERROR]"),
        Level::INFO => (&log_section.info, "[INFO]"),
        Level::DEBUG => (&log_section.debug, "[DEBUG]"),
    };
    let lvl_str = match setting {
        Some(val) => {
            if *val == "true".to_owned() {
                tag.to_owned()
            } else {
                return None;
            }
        },
        None => {
            return None;
        },
    };
    let mut out = lvl_str;
    out.append(" ");
    out.append("PLSHLDER");
    out.append(": ");
    out.append(err_str);
    Some(out)
}

} // verus!

verus! {

/// An error is printed exactly when the section's `error` key is `true`,
/// whatever the other keys say, as `[ERROR] PLSHLDER: <msg>`.
pub proof fn lemma_error_line(s: LogSection, msg: Seq<char>)
    ensures
        log_output(LogConfig::Section(s), Level::ERR, msg) == match s.error {
            Some(v) => if v@ == "true"@ {
                Some("[ERROR]"@ + " "@ + "PLSHLDER"@ + ": "@ + msg)
            } else {
                None
            },
            None => None,
        },
{
}

/// An info line is printed exactly when the section's `info` key is `true`,
/// whatever the other keys say, as `[INFO] PLSHLDER: <msg>`.
pub proof fn lemma_info_line(s: LogSection, msg: Seq<char>)
    ensures
        log_output(LogConfig::Section(s), Level::INFO, msg) == match s.info {
            Some(v) => if v@ == "true"@ {
                Some("[INFO]"@ + " "@ + "PLSHLDER"@ + ": "@ + msg)
            } else {
                None
            },
            None => None,
        },
{
}

/// A debug line is printed exactly when the section's `debug` key is `true`,
/// whatever the other keys say, as `[DEBUG] PLSHLDER: <msg>`.
pub proof fn lemma_debug_line(s: LogSection, msg: Seq<char>)
    ensures
        log_output(LogConfig::Section(s), Level::DEBUG, msg) == match s.debug {
            Some(v) => if v@ == "true"@ {
                Some("[DEBUG]"@ + " "@ + "PLSHLDER"@ + ": "@ + msg)
            } else {
                None
            },
            None => None,
        },
{
}

/// Changing the keys of the other levels never changes what a level prints.
pub proof fn lemma_levels_independent(s1: LogSection, s2: LogSection, msg: Seq<char>)
    ensures
        s1.error == s2.error ==> log_output(LogConfig::Section(s1), Level::ERR, msg) == log_output(
            LogConfig::Section(s2),
            Level::ERR,
            msg,
        ),
        s1.info == s2.info ==> log_output(LogConfig::Section(s1), Level::INFO, msg) == log_output(
            LogConfig::Section(s2),
            Level::INFO,
            msg,
        ),
        s1.debug == s2.debug ==> log_output(LogConfig::Section(s1), Level::DEBUG, msg)
            == log_output(LogConfig::Section(s2), Level::DEBUG, msg),
{
}

} // verus!
