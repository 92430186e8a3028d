use wi_mesh_login::json::{Json, JsonNumber};

fn to_json(v: &serde_json::Value) -> Json {
    match v {
        serde_json::Value::Null => Json::Null,
        serde_json::Value::Bool(b) => Json::Bool(*b),
        serde_json::Value::Number(n) => {
            if let Some(u) = n.as_u64() {
                Json::Number(JsonNumber::PosInt(u))
            } else if let Some(i) = n.as_i64() {
                Json::Number(JsonNumber::NegInt(i))
            } else {
                Json::Number(JsonNumber::Float(n.to_string()))
            }
        }
        serde_json::Value::String(s) => Json::String(s.clone()),
        serde_json::Value::Array(a) => Json::Array(a.iter().map(to_json).collect()),
        serde_json::Value::Object(m) => Json::Object(m.iter().map(|(k, v)| (k.clone(), to_json(v))).collect()),
    }
}

fn parse(text: &str) -> (serde_json::Value, Json) {
    let v: serde_json::Value = serde_json::from_str(text).unwrap();
    let j = to_json(&v);
    (v, j)
}

#[test]
fn render_matches_serde_json() {
    let samples = [
        "null",
        "true",
        "false",
        "0",
        "18446744073709551615",
        "-9223372036854775808",
        "-42",
        "1.5",
        "-0.25",
        "1e300",
        r#""plain""#,
        r#""quote \" backslash \\ slash / tab \t nl \n cr \r bs \b ff \f ctl \u0001 \u001f del \u007f é ☃""#,
        "[]",
        "{}",
        r#"[1,"a",[null,{"k":[true]}]]"#,
        r#"{"b":1,"a":{"z":"\u0000","y":[]},"c":[1,2,3]}"#,
    ];
    for text in samples {
        let (v, j) = parse(text);
        assert_eq!(j.render(), v.to_string(), "sample {text}");
    }
}

#[test]
fn accessors_follow_serde_json() {
    let (v, j) = parse(r#"{"s":"x","u":7,"n":-3,"big":18446744073709551615,"f":2.5,"b":true,"o":{"k":1},"a":[1]}"#);
    for key in ["s", "u", "n", "big", "f", "b", "o", "a", "missing"] {
        let sv = v.get(key);
        let jv = j.get(key);
        assert_eq!(sv.is_some(), jv.is_some(), "{key}");
        if let (Some(sv), Some(jv)) = (sv, jv) {
            assert_eq!(sv.as_str(), jv.as_str(), "{key}");
            assert_eq!(sv.as_u64(), jv.as_u64(), "{key}");
            assert_eq!(sv.as_i64(), jv.as_i64(), "{key}");
            assert_eq!(sv.as_bool(), jv.as_bool(), "{key}");
            assert_eq!(sv.is_object(), jv.is_object(), "{key}");
            assert_eq!(sv.as_array().map(|a| a.len()), jv.as_array().map(|a| a.len()), "{key}");
        }
    }
    assert!(Json::String("x".into()).get("s").is_none());
}

#[test]
fn object_lookup_takes_first_entry() {
    let j = Json::Object(vec![
        ("k".to_string(), Json::Number(JsonNumber::PosInt(1))),
        ("k".to_string(), Json::Number(JsonNumber::PosInt(2))),
    ]);
    assert_eq!(j.get("k").and_then(|v| v.as_u64()), Some(1));
}
