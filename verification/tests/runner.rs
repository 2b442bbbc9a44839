use kafka_oneshot::runner::{configure, join, Config, ConfigError, Ending, Mode, Options};

fn options(mode: Option<&str>, key: Option<&str>, topic: Option<&str>) -> Options {
    Options {
        server: None,
        mode: mode.map(String::from),
        key: key.map(String::from),
        topic: topic.map(String::from),
        tls_file: None,
    }
}

#[test]
fn mode_parse_knows_three_names() {
    assert_eq!(Mode::parse("producer"), Some(Mode::Producer));
    assert_eq!(Mode::parse("consumer"), Some(Mode::Consumer));
    assert_eq!(Mode::parse("both"), Some(Mode::Both));
    assert_eq!(Mode::parse(""), None);
    assert_eq!(Mode::parse("Producer"), None);
    assert_eq!(Mode::parse("both "), None);
    assert_eq!(Mode::parse("neither"), None);
}

#[test]
fn mode_says_which_paths_run() {
    assert!(Mode::Producer.runs_producer());
    assert!(!Mode::Producer.runs_consumer());
    assert!(!Mode::Consumer.runs_producer());
    assert!(Mode::Consumer.runs_consumer());
    assert!(Mode::Both.runs_producer());
    assert!(Mode::Both.runs_consumer());
}

#[test]
fn configure_fills_in_defaults() {
    assert_eq!(
        configure(options(None, Some("id"), Some("events"))),
        Ok(Config {
            server: "localhost:9092".to_string(),
            mode: Mode::Producer,
            key: Some("id".to_string()),
            topic: "events".to_string(),
            tls_file: None,
        })
    );
}

#[test]
fn configure_keeps_what_is_given() {
    let given = Options {
        server: Some("broker:1234".to_string()),
        mode: Some("both".to_string()),
        key: Some("a.b".to_string()),
        topic: Some("events".to_string()),
        tls_file: Some("/etc/kafka.env".to_string()),
    };
    assert_eq!(
        configure(given),
        Ok(Config {
            server: "broker:1234".to_string(),
            mode: Mode::Both,
            key: Some("a.b".to_string()),
            topic: "events".to_string(),
            tls_file: Some("/etc/kafka.env".to_string()),
        })
    );
}

#[test]
fn consumer_needs_no_key() {
    let config = configure(options(Some("consumer"), None, Some("events"))).unwrap();
    assert_eq!(config.mode, Mode::Consumer);
    assert_eq!(config.key, None);
    let with_key = configure(options(Some("consumer"), Some("id"), Some("events"))).unwrap();
    assert_eq!(with_key.key, Some("id".to_string()));
}

#[test]
fn producer_modes_need_a_key() {
    assert_eq!(configure(options(None, None, Some("events"))), Err(ConfigError::MissingKey));
    assert_eq!(
        configure(options(Some("producer"), None, Some("events"))),
        Err(ConfigError::MissingKey)
    );
    assert_eq!(configure(options(Some("both"), None, Some("events"))), Err(ConfigError::MissingKey));
}

#[test]
fn every_mode_needs_a_topic() {
    assert_eq!(configure(options(Some("producer"), Some("id"), None)), Err(ConfigError::MissingTopic));
    assert_eq!(configure(options(Some("consumer"), None, None)), Err(ConfigError::MissingTopic));
    assert_eq!(configure(options(Some("both"), None, None)), Err(ConfigError::MissingTopic));
}

#[test]
fn unknown_mode_is_found_first() {
    assert_eq!(configure(options(Some("neither"), None, None)), Err(ConfigError::UnknownMode));
    assert_eq!(
        configure(options(Some("PRODUCER"), Some("id"), Some("events"))),
        Err(ConfigError::UnknownMode)
    );
}

#[test]
fn join_fails_fast() {
    let failed = Some(Ending::Failed);
    let finished = Some(Ending::Finished);
    // One path has failed, the other is still running.
    assert_eq!(join(Mode::Both, failed, None), failed);
    assert_eq!(join(Mode::Both, None, failed), failed);
    assert_eq!(join(Mode::Both, failed, finished), failed);
    assert_eq!(join(Mode::Both, finished, failed), failed);
    assert_eq!(join(Mode::Both, failed, failed), failed);
}

#[test]
fn join_waits_for_every_path() {
    let finished = Some(Ending::Finished);
    assert_eq!(join(Mode::Both, None, None), None);
    assert_eq!(join(Mode::Both, finished, None), None);
    assert_eq!(join(Mode::Both, None, finished), None);
    assert_eq!(join(Mode::Both, finished, finished), finished);
}

#[test]
fn join_looks_only_at_paths_that_run() {
    let failed = Some(Ending::Failed);
    let finished = Some(Ending::Finished);
    assert_eq!(join(Mode::Producer, finished, None), finished);
    assert_eq!(join(Mode::Producer, finished, failed), finished);
    assert_eq!(join(Mode::Producer, failed, finished), failed);
    assert_eq!(join(Mode::Producer, None, failed), None);
    assert_eq!(join(Mode::Consumer, None, finished), finished);
    assert_eq!(join(Mode::Consumer, failed, finished), finished);
    assert_eq!(join(Mode::Consumer, finished, failed), failed);
    assert_eq!(join(Mode::Consumer, failed, None), None);
}
