use mbell::audio::AudioError;
use mbell::config::{Config, ConfigError};

fn base() -> Config {
    Config::default()
}

#[test]
fn default_snapshot_values() {
    let c = base();
    assert_eq!(c.interval, 10);
    assert_eq!(c.volume, 70);
    assert_eq!(c.log_level, "info");
    assert!(c.validate().is_ok());
}

#[test]
fn zero_interval_is_rejected() {
    let c = Config { interval: 0, ..base() };
    assert_eq!(
        c.validate(),
        Err(ConfigError::ValidationError(String::from("interval must be greater than 0")))
    );
}

#[test]
fn volume_above_one_hundred_is_rejected() {
    let c = Config { volume: 101, ..base() };
    assert_eq!(
        c.validate(),
        Err(ConfigError::ValidationError(String::from("volume must be between 0 and 100")))
    );
}

#[test]
fn log_levels_are_matched_without_regard_to_case() {
    for lv in ["error", "WARN", "Info", "dEbUg", "TRACE"] {
        let c = Config { log_level: String::from(lv), ..base() };
        assert!(c.validate().is_ok(), "rejected {:?}", lv);
    }
}

#[test]
fn unknown_log_level_is_rejected() {
    let c = Config { log_level: String::from("verbose"), ..base() };
    assert_eq!(
        c.validate(),
        Err(ConfigError::ValidationError(String::from(
            "log_level must be one of: error, warn, info, debug, trace"
        )))
    );
}

#[test]
fn default_file_text_documents_every_default() {
    let text = Config::default_config_contents();
    assert_eq!(
        text,
        "# Interval between bells in minutes\ninterval = 10\n\n# Volume level (0-100)\nvolume = 70\n\n# Log level: error, warn, info, debug, trace\nlog_level = \"info\"\n"
    );
}

#[test]
fn audio_errors_carry_their_detail() {
    assert_eq!(
        AudioError::OutputError(String::from("no device")).message(),
        "failed to initialize audio output: no device"
    );
    assert_eq!(
        AudioError::DecodeError(String::from("bad ogg")).message(),
        "failed to decode audio: bad ogg"
    );
    assert_eq!(
        AudioError::PlaybackError(String::from("sink gone")).message(),
        "playback error: sink gone"
    );
}
