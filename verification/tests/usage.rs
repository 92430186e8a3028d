use wi_mesh_login::json::{Json, JsonNumber};
use wi_mesh_login::usage::{
    card_data, card_lines, display_value, format_table_line, padded, report_card, run_failure, session_lines, timestamp,
    CardOutcome, UsageError,
};

fn to_json(v: &serde_json::Value) -> Json {
    match v {
        serde_json::Value::Null => Json::Null,
        serde_json::Value::Bool(b) => Json::Bool(*b),
        serde_json::Value::Number(n) => {
            if let Some(u) = n.as_u64() {
                Json::Number(JsonNumber::PosInt(u))
            } else if let Some(i) = n.as_i64() {
                Json::Number(JsonNumber::NegInt(i))
            } else {
                Json::Number(JsonNumber::Float(n.to_string()))
            }
        }
        serde_json::Value::String(s) => Json::String(s.clone()),
        serde_json::Value::Array(a) => Json::Array(a.iter().map(to_json).collect()),
        serde_json::Value::Object(m) => Json::Object(m.iter().map(|(k, v)| (k.clone(), to_json(v))).collect()),
    }
}

fn json(text: &str) -> Json {
    to_json(&serde_json::from_str::<serde_json::Value>(text).unwrap())
}

#[test]
fn display_values() {
    assert_eq!(display_value(None), "—");
    assert_eq!(display_value(Some(&json("null"))), "—");
    assert_eq!(display_value(Some(&json(r#""""#))), "—");
    assert_eq!(display_value(Some(&json(r#""Active""#))), "Active");
    assert_eq!(display_value(Some(&json("12"))), "12");
    assert_eq!(display_value(Some(&json("-7"))), "-7");
    assert_eq!(display_value(Some(&json("1.25"))), "1.25");
    assert_eq!(display_value(Some(&json("false"))), "false");
    assert_eq!(display_value(Some(&json(r#"{"a":"b"}"#))), r#"{"a":"b"}"#);
    assert_eq!(display_value(Some(&json(r#"["aa:bb", 3, null, "", ["x"]]"#))), r#"aa:bb, 3, null, , ["x"]"#);
    assert_eq!(display_value(Some(&json("[]"))), "");
}

#[test]
fn timestamps() {
    assert_eq!(timestamp(None), "—");
    assert_eq!(timestamp(Some(&json("0"))), "—");
    assert_eq!(timestamp(Some(&json("-5"))), "—");
    assert_eq!(timestamp(Some(&json(r#""soon""#))), "soon");
    assert_eq!(timestamp(Some(&json("1.5"))), "1.5");
    assert_eq!(timestamp(Some(&json("1700000000"))), "2023-11-14T22:13:20Z");
    assert_eq!(timestamp(Some(&json("99999999999"))), "5138-11-16T09:46:39Z");
    let millis = time::OffsetDateTime::from_unix_timestamp_nanos(1_700_000_000_123i128 * 1_000_000)
        .unwrap()
        .format(&time::format_description::well_known::Rfc3339)
        .unwrap();
    assert_eq!(timestamp(Some(&json("1700000000123"))), millis);
    assert_eq!(timestamp(Some(&json("9223372036854775807"))), "9223372036854775807");
    assert_eq!(timestamp(Some(&json("18446744073709551615"))), "18446744073709551615");
}

#[test]
fn card_reply_outcomes() {
    assert!(matches!(card_data(&json(r#"{"result":false,"code":2}"#)), Err(UsageError::AuthorizationFailed)));
    assert!(matches!(card_data(&json(r#"{"result":"yes","code":3}"#)), Err(UsageError::CardRejected)));
    match card_data(&json(r#"{"code":9,"msg":"down"}"#)) {
        Err(UsageError::Rejected { code, message }) => {
            assert_eq!(code, Some(9));
            assert_eq!(message, "down");
        }
        other => panic!("unexpected {other:?}"),
    }
    match card_data(&json(r#"{"result":false,"code":"x"}"#)) {
        Err(UsageError::Rejected { code, message }) => {
            assert_eq!(code, None);
            assert_eq!(message, "unknown API error");
        }
        other => panic!("unexpected {other:?}"),
    }
    assert!(matches!(card_data(&json(r#"{"result":true,"data":[1]}"#)), Err(UsageError::MissingData)));
    assert!(matches!(card_data(&json(r#"{"result":true}"#)), Err(UsageError::MissingData)));
    let reply = json(r#"{"result":true,"data":{"Status":"ok"}}"#);
    let data = card_data(&reply).unwrap();
    assert_eq!(data.get("Status").and_then(|s| s.as_str()), Some("ok"));
}

#[test]
fn padding_counts_characters() {
    assert_eq!(padded("—", 3), "—  ");
    assert_eq!(padded("long", 2), "long");
    assert_eq!(padded("", 2), "  ");
}

#[test]
fn session_table() {
    assert_eq!(session_lines(None), vec!["  Sessions:    —"]);
    assert_eq!(session_lines(Some(&json(r#"{"a":1}"#))), vec!["  Sessions:    —"]);
    assert_eq!(session_lines(Some(&json("[]"))), vec!["  Sessions:    0"]);
    let sessions = json(
        r#"[{"StartAt":0,"TotalTime":"1h","Download":123,"Upload":4,"MACs":["aa","bb"]},
            {"StartAt":"x","TotalTime":null}]"#,
    );
    let lines = session_lines(Some(&sessions));
    let row = |c: [&str; 6]| {
        format!(
            "    {:<1}  {:<5}  {:<10}  {:<8}  {:<6}  {:<6}",
            c[0], c[1], c[2], c[3], c[4], c[5]
        )
    };
    let expected = vec![
        "  Sessions:    2".to_string(),
        row(["#", "Start", "Total time", "Download", "Upload", "MACs"]),
        row(["-", "-----", "----------", "--------", "------", "------"]),
        row(["1", "—", "1h", "123", "4", "aa, bb"]),
        row(["2", "x", "—", "—", "—", "—"]),
    ];
    assert_eq!(lines, expected);
    let width = lines[1].chars().count();
    assert!(lines[1..].iter().all(|l| l.chars().count() == width));
}

#[test]
fn card_description() {
    let data = json(
        r#"{"TypeName":"Day pass","Status":"Active","ProjectName":"","ActivedAt":1700000000,
            "ExpiredAt":0,"BWTotal":1024,"BWStatics":[]}"#,
    );
    let expected = vec![
        "Card 3",
        "  Type         Day pass",
        "  Status       Active",
        "  Project      —",
        "  Activated:   2023-11-14T22:13:20Z",
        "  Expires:     —",
        "  Total usage  1024",
    ];
    assert_eq!(card_lines(3, &data, false), expected);
    let mut with_sessions = expected.clone();
    with_sessions.push("  Sessions:    0");
    assert_eq!(card_lines(3, &data, true), with_sessions);
}

#[test]
fn seconds_and_millis_agree() {
    for seconds in [100_000_000u64, 1_700_000_000, 99_999_999_999] {
        let s = Json::Number(JsonNumber::PosInt(seconds));
        let ms = Json::Number(JsonNumber::PosInt(seconds * 1000));
        assert_eq!(timestamp(Some(&s)), timestamp(Some(&ms)));
    }
}

#[test]
fn table_line_with_fewer_cells() {
    let cells = vec!["a".to_owned(), "bb".to_owned()];
    let widths = vec![3usize, 1, 0, 0, 0, 0];
    assert_eq!(format_table_line(&cells, &widths), "    a    bb");
    assert_eq!(format_table_line(&Vec::new(), &widths), "    ");
}

#[test]
fn card_reports() {
    let empty = report_card(0, 2, CardOutcome::EmptyPin);
    assert!(empty.out.is_empty());
    assert_eq!(empty.err, vec!["Card 1: PIN is empty.".to_owned()]);
    assert!(empty.failed);

    let lines = report_card(0, 2, CardOutcome::Lines(vec!["Card 1".to_owned()]));
    assert_eq!(lines.out, vec!["Card 1".to_owned(), String::new()]);
    assert!(lines.err.is_empty());
    assert!(!lines.failed);

    let last = report_card(1, 2, CardOutcome::Lines(vec!["Card 2".to_owned()]));
    assert_eq!(last.out, vec!["Card 2".to_owned()]);

    let failed = report_card(11, 13, CardOutcome::Failed("timed out".to_owned()));
    assert_eq!(failed.out, vec![String::new()]);
    assert_eq!(failed.err, vec!["Card 12: timed out".to_owned()]);
    assert!(failed.failed);

    let failed_last = report_card(12, 13, CardOutcome::Failed("timed out".to_owned()));
    assert!(failed_last.out.is_empty());
}

#[test]
fn run_failures() {
    assert_eq!(run_failure(0), None);
    assert_eq!(run_failure(1), Some("1 card request(s) failed".to_owned()));
    assert_eq!(run_failure(12), Some("12 card request(s) failed".to_owned()));
}

#[test]
fn timestamp_year_range() {
    assert_eq!(timestamp(Some(&json("100000000000"))), "1973-03-03T09:46:40Z");
    assert_eq!(timestamp(Some(&json("253402300799999"))), "9999-12-31T23:59:59.999Z");
    assert_eq!(timestamp(Some(&json("253402300800000"))), "253402300800000");
    assert_eq!(timestamp(Some(&json("9223372036854775807"))), "9223372036854775807");
}
