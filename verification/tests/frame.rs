use market_protocol::frame::{
    control_frame_kind, heartbeat_json, is_control_frame, resume_json, DEFAULT_HEARTBEAT_INTERVAL_SECS,
};

#[test]
fn heartbeat_json_is_exact_and_recognized() {
    let json = heartbeat_json();
    assert_eq!(json, r#"{"type":"heartbeat"}"#);
    assert_eq!(is_control_frame(&json), Some("heartbeat"));
}

#[test]
fn resume_json_is_exact_and_recognized() {
    let json = resume_json(123, 456);
    assert_eq!(
        json,
        r#"{"type":"resume","since_ts":123,"since_serial":456}"#
    );
    assert_eq!(is_control_frame(&json), Some("resume"));
}

#[test]
fn malformed_json_is_not_control_frame() {
    assert_eq!(is_control_frame("not json"), None);
    assert_eq!(is_control_frame(""), None);
}

#[test]
fn unknown_type_is_not_a_control_frame() {
    assert_eq!(is_control_frame(r#"{"type":"bogus"}"#), None);
    assert_eq!(is_control_frame(r#"{"kind":"heartbeat"}"#), None);
    assert_eq!(is_control_frame(r#"{"type":1}"#), None);
    assert_eq!(is_control_frame(r#"["heartbeat"]"#), None);
}

#[test]
fn market_message_text_is_not_a_control_frame() {
    let json = r#"{"type":"quote","symbol":{"market":"A","code":"560010"},"data":{"ts":1787904896000,"price":3.208,"open":3.211,"high":3.245,"low":3.204,"pre_close":3.22,"volume":132886000.0,"amount":428272326.0,"in_vol":null,"out_vol":null}}"#;
    assert_eq!(is_control_frame(json), None);
}

#[test]
fn control_frame_kind_names_only_control_labels() {
    assert_eq!(control_frame_kind(Some("heartbeat")), Some("heartbeat"));
    assert_eq!(control_frame_kind(Some("resume")), Some("resume"));
    assert_eq!(control_frame_kind(Some("quote")), None);
    assert_eq!(control_frame_kind(Some("Heartbeat")), None);
    assert_eq!(control_frame_kind(Some("")), None);
    assert_eq!(control_frame_kind(None), None);
}

#[test]
fn resume_json_writes_signed_decimals() {
    assert_eq!(resume_json(0, -1), r#"{"type":"resume","since_ts":0,"since_serial":-1}"#);
    assert_eq!(
        resume_json(i64::MIN, i64::MAX),
        r#"{"type":"resume","since_ts":-9223372036854775808,"since_serial":9223372036854775807}"#
    );
    assert_eq!(resume_json(1_787_887_504_611, 10), r#"{"type":"resume","since_ts":1787887504611,"since_serial":10}"#);
}

#[test]
fn default_heartbeat_interval_is_fifteen_seconds() {
    assert_eq!(DEFAULT_HEARTBEAT_INTERVAL_SECS, 15);
}

#[test]
fn resume_frames_differ_for_different_cursors() {
    assert_ne!(resume_json(12, 3), resume_json(1, 23));
    assert_ne!(resume_json(-1, 0), resume_json(1, 0));
    assert_ne!(resume_json(0, 10), resume_json(0, 1));
    assert_eq!(resume_json(7, -7), resume_json(7, -7));
}

#[test]
fn generated_control_frames_are_recognized() {
    assert_eq!(is_control_frame(&heartbeat_json()), Some("heartbeat"));
    for (ts, serial) in [(0, 0), (-1, -1), (i64::MIN, i64::MAX), (1_787_887_504_611, 42)] {
        assert_eq!(is_control_frame(&resume_json(ts, serial)), Some("resume"));
    }
}
