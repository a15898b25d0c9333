use idiomatic::cfg_v1;
use idiomatic::cfgtool::{Config, ConfigError, Stored, StoredWorkers, Workers, WorkersOutOfRange, VERSION};
use serde_json::Value;

const V1_AUTO: &str = r#"{"version": 1, "workers": 0, "listen": "127.0.0.1:8080"}"#;
const V1_FIXED: &str = r#"{"version": 1, "workers": 4, "listen": "127.0.0.1:8080"}"#;

/// The stored form of a JSON text, as the file format shapes it: a version byte, a worker
/// count that is a number or a word, and an address. `None` when the text is not of that shape.
fn stored(json: &str) -> Option<Stored> {
    let value: Value = serde_json::from_str(json).ok()?;
    let version = u8::try_from(value.get("version")?.as_u64()?).ok()?;
    let workers = match value.get("workers")? {
        Value::Number(n) => StoredWorkers::Count(u32::try_from(n.as_u64()?).ok()?),
        Value::String(word) => StoredWorkers::Word(word.clone()),
        _ => return None,
    };
    let listen = value.get("listen")?.as_str()?.to_string();
    Some(Stored { version, workers, listen })
}

fn load(json: &str) -> Option<Result<Config, ConfigError>> {
    stored(json).map(Config::try_from)
}

#[test]
fn test_a_version_1_zero_loads_as_auto() {
    let config = load(V1_AUTO).unwrap().unwrap();
    assert_eq!(config.version, 1);
    assert_eq!(config.workers, Workers::Auto);
}

#[test]
fn test_a_version_1_count_loads_as_fixed() {
    let config = load(V1_FIXED).unwrap().unwrap();
    assert_eq!(config.workers, Workers::fixed(4).expect("4 is in range"));
    assert_eq!(config.listen, "127.0.0.1:8080");
}

#[test]
fn test_version_2_rejects_zero_and_above_max() {
    for json in [
        r#"{"version": 2, "workers": 0, "listen": "a"}"#,
        r#"{"version": 2, "workers": 65, "listen": "a"}"#,
        r#"{"version": 2, "workers": "many", "listen": "a"}"#,
        r#"{"version": 3, "workers": "auto", "listen": "a"}"#,
    ] {
        assert!(load(json).unwrap().is_err(), "{json} is rejected");
    }
}

#[test]
fn test_the_written_form_is_version_2() {
    let config = load(V1_AUTO).unwrap().unwrap();
    let written = Stored::from_config(config);
    assert_eq!(written.version, 2);
    assert!(matches!(&written.workers, StoredWorkers::Word(word) if word == "auto"));
    assert_eq!(written.listen, "127.0.0.1:8080");
}

#[test]
fn test_a_version_1_file_loads() {
    let config = cfg_v1::Config { version: 1, workers: 4, listen: "127.0.0.1:8080".to_string() };
    let config = config.check().unwrap();
    assert_eq!(config.version, 1);
    assert_eq!(config.workers, 4);
    assert_eq!(config.listen, "127.0.0.1:8080");
}

#[test]
fn the_version_1_reader_refuses_another_version() {
    let config = cfg_v1::Config { version: 2, workers: 0, listen: "a".to_string() };
    assert_eq!(config.check(), Err(cfg_v1::UnsupportedVersion(2)));
}

#[test]
fn each_refusal_says_why() {
    assert_eq!(
        load(r#"{"version": 2, "workers": 0, "listen": "a"}"#).unwrap(),
        Err(ConfigError::Workers(WorkersOutOfRange(0)))
    );
    assert_eq!(
        load(r#"{"version": 1, "workers": 65, "listen": "a"}"#).unwrap(),
        Err(ConfigError::Workers(WorkersOutOfRange(65)))
    );
    assert_eq!(
        load(r#"{"version": 2, "workers": "many", "listen": "a"}"#).unwrap(),
        Err(ConfigError::UnknownWord("many".to_string()))
    );
    // version 1 never wrote a word, not even "auto"
    assert_eq!(
        load(r#"{"version": 1, "workers": "auto", "listen": "a"}"#).unwrap(),
        Err(ConfigError::UnknownWord("auto".to_string()))
    );
    assert_eq!(
        load(r#"{"version": 3, "workers": 4, "listen": "a"}"#).unwrap(),
        Err(ConfigError::UnsupportedVersion(3))
    );
}

#[test]
fn version_2_accepts_auto_and_the_bounds() {
    for (json, workers) in [
        (r#"{"version": 2, "workers": "auto", "listen": "127.0.0.1:1"}"#, Workers::Auto),
        (r#"{"version": 2, "workers": 1, "listen": "127.0.0.1:1"}"#, Workers::Fixed(1)),
        (r#"{"version": 2, "workers": 64, "listen": "127.0.0.1:1"}"#, Workers::Fixed(64)),
    ] {
        let config = load(json).unwrap().unwrap();
        assert_eq!(config.version, 2);
        assert_eq!(config.workers, workers);
    }
}

#[test]
fn a_fixed_count_migrates_to_the_same_count() {
    let config = load(V1_FIXED).unwrap().unwrap();
    let written = Stored::from_config(config.clone());
    assert_eq!(written.version, VERSION);
    assert!(matches!(written.workers, StoredWorkers::Count(4)));
    let again = Config::try_from(written).unwrap();
    assert_eq!(again.workers, config.workers);
    assert_eq!(again.listen, config.listen);
    assert_eq!(again.version, 2);
}

#[test]
fn fixed_takes_one_to_the_maximum() {
    assert_eq!(Workers::fixed(0), None);
    assert_eq!(Workers::fixed(1), Some(Workers::Fixed(1)));
    assert_eq!(Workers::fixed(Workers::MAX), Some(Workers::Fixed(64)));
    assert_eq!(Workers::fixed(Workers::MAX + 1), None);
}

#[test]
fn workers_are_written_as_auto_or_the_count() {
    assert_eq!(Workers::Auto.to_text(), "auto");
    assert_eq!(Workers::Fixed(4).to_text(), "4");
    assert_eq!(Workers::Fixed(64).to_text(), "64");
    assert_eq!(Workers::Fixed(0).to_text(), "0");
}
