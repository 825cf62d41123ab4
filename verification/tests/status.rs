use lox::status::{
    download_name, log_tail, online_label, parse_unsigned, plc_state_label, split_lines,
    time_parts, update_check_url, update_status, LogError,
};

#[test]
fn plc_labels() {
    assert_eq!(plc_state_label("5"), "✓ Running");
    assert_eq!(plc_state_label("3"), "Started");
    assert_eq!(plc_state_label("7"), "⚠ Error");
    assert_eq!(plc_state_label("1"), "Booting");
    assert_eq!(plc_state_label("8"), "Updating");
    assert_eq!(plc_state_label("4"), "4");
    assert_eq!(plc_state_label("?"), "?");
}

#[test]
fn online_marker() {
    assert_eq!(online_label(None), "✓ Online");
    assert_eq!(online_label(Some("false")), "✓ Online");
    assert_eq!(online_label(Some("true")), "✗ Offline");
}

#[test]
fn lines_as_std_splits_them() {
    let texts = ["", "a", "a\n", "a\nb", "a\r\nb\r\n", "\n\n", "x\ry", "last\r"];
    for t in texts {
        let expected: Vec<String> = t.lines().map(|l| l.to_string()).collect();
        assert_eq!(split_lines(t), expected, "text {:?}", t);
    }
}

#[test]
fn log_tail_keeps_last_lines() {
    let log = "one\ntwo\nthree\nfour\n";
    assert_eq!(log_tail(log, 2).unwrap(), vec!["three", "four"]);
    assert_eq!(log_tail(log, 10).unwrap(), vec!["one", "two", "three", "four"]);
    assert!(log_tail(log, 0).unwrap().is_empty());
    assert!(log_tail("", 50).unwrap().is_empty());
}

#[test]
fn log_access_denied() {
    let reply = "<?xml version=\"1.0\"?><errorcode>403</errorcode>";
    let err = log_tail(reply, 50).unwrap_err();
    assert!(matches!(err, LogError::AccessDenied));
    assert_eq!(err.to_string(), "Access denied. The Miniserver log requires admin privileges.");
    assert!(matches!(log_tail("<errorcode>401</errorcode>", 5), Err(LogError::AccessDenied)));
}

#[test]
fn log_error_code() {
    let reply = "  <LL control=\"x\" errorcode=\"500\"><errorcode>500</errorcode></LL>";
    let err = log_tail(reply, 50).unwrap_err();
    assert!(matches!(&err, LogError::ErrorCode { code } if code == "500"));
    assert_eq!(err.to_string(), "Miniserver returned error code 500");
    let err = log_tail("<x><errorcode>404</errorcode></x>", 3).unwrap_err();
    assert!(matches!(&err, LogError::ErrorCode { code } if code == "?"));
    // an error tag inside plain text is just a log line
    assert_eq!(log_tail("boot <errorcode>1</errorcode>", 5).unwrap(), vec!["boot <errorcode>1</errorcode>"]);
}

#[test]
fn modified_stamp_parts() {
    assert_eq!(time_parts("2024-01-02 12:34:56"), ("2024-01-02".to_string(), "12:34:56".to_string()));
    assert_eq!(time_parts("2024-01-02 12:34:56 UTC"), ("2024-01-02".to_string(), "12:34:56 UTC".to_string()));
    assert_eq!(time_parts("?"), ("?".to_string(), "?".to_string()));
    assert_eq!(time_parts(""), (String::new(), "?".to_string()));
}

#[test]
fn unsigned_parsing_as_std() {
    for t in ["0", "42", "+7", "", "+", "-1", "12a", "4294967295", "4294967296", "007"] {
        assert_eq!(parse_unsigned(t, u32::MAX as u64), t.parse::<u32>().ok().map(|v| v as u64), "text {:?}", t);
    }
    assert_eq!(parse_unsigned("18446744073709551615", u64::MAX), Some(u64::MAX));
    assert_eq!(parse_unsigned("18446744073709551616", u64::MAX), None);
}

#[test]
fn update_check() {
    let body = "<update Firmware=\"15.1.2.3\" Version=\"1\"/>";
    let u = update_status(body, "14.0.0.0");
    assert_eq!(u.new_version.as_deref(), Some("15.1.2.3"));
    assert!(u.update_available);
    let same = update_status("<update version=\"14.0.0.0\" update=\"0\"/>", "14.0.0.0");
    assert_eq!(same.new_version.as_deref(), Some("14.0.0.0"));
    assert!(!same.update_available);
    let flag_only = update_status("<update update=\"1\"/>", "14.0.0.0");
    assert_eq!(flag_only.new_version, None);
    assert!(flag_only.update_available);
    let dotted = update_status("<x Version=\"15.0\"/>", "15.0");
    assert_eq!(dotted.new_version.as_deref(), Some("15.0"));
    assert!(!dotted.update_available);
    let nothing = update_status("<x/>", "15.0");
    assert_eq!(nothing.new_version, None);
    assert!(!nothing.update_available);
}

#[test]
fn update_url() {
    assert_eq!(
        update_check_url("504F94A0", "14.0.3.28"),
        "https://update.loxone.com/updatecheck.xml?serial=504F94A0&version=14.0.3.28"
    );
}

#[test]
fn download_names() {
    assert_eq!(download_name("/log/def.log", None), "def.log");
    assert_eq!(download_name("/log/def.log", Some("local.log")), "local.log");
    assert_eq!(download_name("plain", None), "plain");
    assert_eq!(download_name("/dir/", None), "");
}
