use kafka_oneshot::consumer::{after_receive, on_received, render_record, ConsumerAction, Received};
use kafka_oneshot::dispatch::Verdict;

#[test]
fn record_with_key_is_rendered() {
    assert_eq!(
        render_record(&Some(b"42".to_vec()), &Some(b"{\"id\":\"42\",\"v\":1}".to_vec())),
        "Key: '42', Payload: '{\"id\":\"42\",\"v\":1}'"
    );
}

#[test]
fn record_without_key_shows_the_marker() {
    assert_eq!(render_record(&None, &Some(b"hello".to_vec())), "Key: 'None', Payload: 'hello'");
}

#[test]
fn empty_key_is_not_the_absent_key() {
    assert_eq!(render_record(&Some(vec![]), &Some(b"p".to_vec())), "Key: '', Payload: 'p'");
    assert_ne!(
        render_record(&Some(vec![]), &Some(b"p".to_vec())),
        render_record(&None, &Some(b"p".to_vec()))
    );
}

#[test]
fn record_without_payload_is_rendered_with_nothing_for_it() {
    assert_eq!(render_record(&Some(b"k".to_vec()), &None), "Key: 'k', Payload: ''");
    assert_eq!(render_record(&None, &None), "Key: 'None', Payload: ''");
}

#[test]
fn rendering_decodes_key_and_payload_as_std_does() {
    let keys: [Option<&[u8]>; 5] =
        [None, Some(b"k"), Some(b"a\"b\\c\n"), Some(b"\xff\xfe"), Some("é\u{7f}".as_bytes())];
    let payloads: [Option<&[u8]>; 5] =
        [None, Some(b""), Some(b"text"), Some(b"\xc3\x28 broken"), Some("ünïcödé".as_bytes())];
    for key in keys {
        for payload in payloads {
            let key_text = match key {
                Some(bytes) => String::from_utf8_lossy(bytes).into_owned(),
                None => "None".to_string(),
            };
            let payload_text = match payload {
                Some(bytes) => String::from_utf8_lossy(bytes).into_owned(),
                None => String::new(),
            };
            let expected = format!("Key: '{}', Payload: '{}'", key_text, payload_text);
            assert_eq!(
                render_record(&key.map(|k| k.to_vec()), &payload.map(|p| p.to_vec())),
                expected
            );
        }
    }
}

#[test]
fn bytes_that_are_not_utf8_are_replaced() {
    assert_eq!(
        render_record(&Some(vec![0xff]), &Some(vec![b'a', 0xff, b'b'])),
        "Key: '\u{fffd}', Payload: 'a\u{fffd}b'"
    );
}

#[test]
fn quotes_in_the_key_stand_as_they_are() {
    assert_eq!(
        render_record(&Some(b"a\"b'c".to_vec()), &Some(b"p".to_vec())),
        "Key: 'a\"b'c', Payload: 'p'"
    );
}

#[test]
fn every_record_is_printed() {
    let event = Received::Record { key: Some(b"k".to_vec()), payload: Some(b"v".to_vec()) };
    assert_eq!(on_received(&event), ConsumerAction::Print("Key: 'k', Payload: 'v'".to_string()));
    let keyless = Received::Record { key: None, payload: Some(b"v".to_vec()) };
    assert_eq!(on_received(&keyless), ConsumerAction::Print("Key: 'None', Payload: 'v'".to_string()));
    let empty = Received::Record { key: Some(b"k".to_vec()), payload: None };
    assert_eq!(on_received(&empty), ConsumerAction::Print("Key: 'k', Payload: ''".to_string()));
    let bare = Received::Record { key: None, payload: None };
    assert_eq!(on_received(&bare), ConsumerAction::Print("Key: 'None', Payload: ''".to_string()));
}

#[test]
fn one_line_for_each_record_in_the_order_received() {
    let records = vec![
        Received::Record { key: Some(b"1".to_vec()), payload: Some(b"a".to_vec()) },
        Received::Record { key: None, payload: Some(b"b".to_vec()) },
        Received::Record { key: Some(b"3".to_vec()), payload: None },
        Received::Record { key: Some(b"1".to_vec()), payload: Some(b"a".to_vec()) },
    ];
    let lines: Vec<ConsumerAction> = records.iter().map(on_received).collect();
    assert_eq!(
        lines,
        vec![
            ConsumerAction::Print("Key: '1', Payload: 'a'".to_string()),
            ConsumerAction::Print("Key: 'None', Payload: 'b'".to_string()),
            ConsumerAction::Print("Key: '3', Payload: ''".to_string()),
            ConsumerAction::Print("Key: '1', Payload: 'a'".to_string()),
        ]
    );
}

#[test]
fn failure_is_reported() {
    let event = Received::Failure("broker down".to_string());
    assert_eq!(
        on_received(&event),
        ConsumerAction::Report("Kafka consumer error: broker down".to_string())
    );
}

#[test]
fn consumer_goes_on_after_anything() {
    let events = [
        Received::Record { key: None, payload: Some(b"v".to_vec()) },
        Received::Record { key: None, payload: None },
        Received::Failure("broker down".to_string()),
    ];
    for event in &events {
        assert_eq!(after_receive(event), Verdict::Continue);
    }
}
