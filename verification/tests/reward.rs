use md5::Digest;
use wi_mesh_login::json::{Json, JsonNumber};
use wi_mesh_login::reward::{
    already_claimed_line, claim_outcome, device_file_name, device_id_from_bytes, device_info, finished,
    generate_device_id, initial_token, is_valid_device_id, login_request_fields, password_hash, plan_rewards,
    reply_data, session_token, token, token_request_fields, RewardStep, ShopAction, ShopArgs, ShopError,
};

fn to_json(v: &serde_json::Value) -> Json {
    match v {
        serde_json::Value::Null => Json::Null,
        serde_json::Value::Bool(b) => Json::Bool(*b),
        serde_json::Value::Number(n) => {
            if let Some(u) = n.as_u64() {
                Json::Number(JsonNumber::PosInt(u))
            } else if let Some(i) = n.as_i64() {
                Json::Number(JsonNumber::NegInt(i))
            } else {
                Json::Number(JsonNumber::Float(n.to_string()))
            }
        }
        serde_json::Value::String(s) => Json::String(s.clone()),
        serde_json::Value::Array(a) => Json::Array(a.iter().map(to_json).collect()),
        serde_json::Value::Object(m) => Json::Object(m.iter().map(|(k, v)| (k.clone(), to_json(v))).collect()),
    }
}

fn json(text: &str) -> Json {
    to_json(&serde_json::from_str::<serde_json::Value>(text).unwrap())
}

#[test]
fn shop_actions() {
    let args = |login, reward, forget| ShopArgs { login, reward, forget, state_dir: None };
    assert_eq!(args(true, false, false).action(), ShopAction::Login);
    assert_eq!(args(false, true, false).action(), ShopAction::Reward);
    assert_eq!(args(false, false, true).action(), ShopAction::Forget);
    assert_eq!(args(true, true, true).action(), ShopAction::Forget);
}

#[test]
fn reply_data_and_rejections() {
    let ok = json(r#"{"result":true,"data":{"Token":"t"}}"#);
    assert!(reply_data(&ok).unwrap().is_object());
    assert!(matches!(reply_data(&json(r#"{"result":true}"#)), Err(ShopError::MissingData)));
    match reply_data(&json(r#"{"result":false,"code":5,"msg":"no"}"#)) {
        Err(ShopError::Rejected { code, message }) => {
            assert_eq!(code, "5");
            assert_eq!(message, "no");
        }
        other => panic!("unexpected {other:?}"),
    }
    match reply_data(&json(r#"{"result":1}"#)) {
        Err(ShopError::Rejected { code, message }) => {
            assert_eq!(code, "null");
            assert_eq!(message, "unknown error");
        }
        other => panic!("unexpected {other:?}"),
    }
    match reply_data(&json(r#"{"code":"E1"}"#)) {
        Err(ShopError::Rejected { code, .. }) => assert_eq!(code, "\"E1\""),
        other => panic!("unexpected {other:?}"),
    }
}

#[test]
fn tokens() {
    assert_eq!(token(&json(r#"{"Token":"abc"}"#)).unwrap(), "abc");
    assert!(matches!(token(&json(r#"{"Token":""}"#)), Err(ShopError::MissingToken)));
    assert!(matches!(token(&json(r#"{"Token":1}"#)), Err(ShopError::MissingToken)));
    assert!(matches!(token(&json("[]")), Err(ShopError::MissingToken)));
    assert_eq!(initial_token(&json(r#"{"result":true,"data":{"Token":"first"}}"#)).unwrap(), "first");
    assert_eq!(
        session_token(&json(r#"{"result":true,"data":{"Token":{"Token":"second"}}}"#)).unwrap(),
        "second"
    );
    assert!(matches!(
        session_token(&json(r#"{"result":true,"data":{"Token":"flat"}}"#)),
        Err(ShopError::MissingToken)
    ));
}

#[test]
fn finished_tasks() {
    assert!(finished(&json(r#"{"FinishAt":5}"#)).unwrap());
    assert!(!finished(&json(r#"{"FinishAt":0}"#)).unwrap());
    assert!(matches!(finished(&json(r#"{"FinishAt":-1}"#)), Err(ShopError::MissingFinishAt)));
    assert!(matches!(finished(&json(r#"{"FinishAt":"1"}"#)), Err(ShopError::MissingFinishAt)));
    assert!(matches!(finished(&json("{}")), Err(ShopError::MissingFinishAt)));
}

#[test]
fn reward_plans() {
    let reply = json(
        r#"{"result":true,"data":{"Tasks":[
            {"Name":"Daily","FinishAt":0,"Key":"k1"},
            {"Name":"Done","FinishAt":17},
            {"FinishAt":0,"Key":"k3"}]}}"#,
    );
    let steps = plan_rewards(&reply).unwrap();
    assert_eq!(steps.len(), 3);
    assert!(matches!(&steps[0], RewardStep::Claim { name, key } if name == "Daily" && key == "k1"));
    assert!(matches!(&steps[1], RewardStep::AlreadyClaimed { name } if name == "Done"));
    assert!(matches!(&steps[2], RewardStep::Claim { name, key } if name == "Unnamed task" && key == "k3"));
    let empty = plan_rewards(&json(r#"{"result":true,"data":{"Tasks":[]}}"#)).unwrap();
    assert!(empty.is_empty());
    assert!(matches!(plan_rewards(&json(r#"{"result":true,"data":{}}"#)), Err(ShopError::MissingTasks)));
    assert!(matches!(
        plan_rewards(&json(r#"{"result":true,"data":{"Tasks":[{"FinishAt":0,"Key":""},{"Name":"x"}]}}"#)),
        Err(ShopError::UnclaimedTaskWithoutKey)
    ));
    assert!(matches!(
        plan_rewards(&json(r#"{"result":true,"data":{"Tasks":[{"Name":"x"},{"FinishAt":0}]}}"#)),
        Err(ShopError::MissingFinishAt)
    ));
    assert!(matches!(plan_rewards(&json(r#"{"result":false}"#)), Err(ShopError::Rejected { .. })));
}

#[test]
fn claim_outcomes() {
    let already = json(r#"{"result":false,"code":2,"msg":"Bạn đã nhận điểm thưởng này rồi."}"#);
    assert_eq!(claim_outcome("Daily", &already).unwrap(), "Already claimed: Daily");
    assert_eq!(already_claimed_line("X"), "Already claimed: X");
    assert_eq!(claim_outcome("Daily", &json(r#"{"result":true,"data":1,"msg":"+10"}"#)).unwrap(), "+10");
    assert_eq!(claim_outcome("Daily", &json(r#"{"result":true,"data":null}"#)).unwrap(), "Reward claimed.");
    assert!(matches!(claim_outcome("Daily", &json(r#"{"result":true}"#)), Err(ShopError::MissingData)));
    assert!(matches!(
        claim_outcome("Daily", &json(r#"{"result":false,"code":2,"msg":"other"}"#)),
        Err(ShopError::Rejected { .. })
    ));
}

#[test]
fn login_values() {
    assert_eq!(password_hash("secret"), "5EBE2294ECD0E0F08EAB7690D2A6EE69");
    assert_eq!(password_hash(""), "D41D8CD98F00B204E9800998ECF8427E");
    assert_eq!(device_file_name("0901234567"), format!("{:x}.device", md5_lower("0901234567")));
    let fields = login_request_fields("0901", "secret");
    assert_eq!(
        fields,
        vec![
            ("phone".to_string(), "0901".to_string()),
            ("password".to_string(), "5EBE2294ECD0E0F08EAB7690D2A6EE69".to_string())
        ]
    );
}

fn md5_lower(s: &str) -> u128 {
    let d = md5::Md5::digest(s.as_bytes());
    u128::from_be_bytes(d.into())
}

#[test]
fn device_ids() {
    assert!(is_valid_device_id("0123456789abcdefABCDEF0123456789"));
    assert!(!is_valid_device_id("0123456789abcdefABCDEF012345678"));
    assert!(!is_valid_device_id("0123456789abcdefABCDEF012345678g"));
    assert!(!is_valid_device_id("0123456789abcdefABCDEF01234567é"));
    let id = device_id_from_bytes(&(0u8..16).map(|b| b * 17).collect());
    assert_eq!(id, "00112233445566778899AABBCCDDEEFF");
    assert!(is_valid_device_id(&id));
    let fresh = generate_device_id().unwrap();
    assert!(is_valid_device_id(&fresh));
    assert_eq!(fresh, fresh.to_uppercase());
    let other = generate_device_id().unwrap();
    assert_ne!(fresh, other);
    assert_ne!(fresh, "0".repeat(32));
}

#[test]
fn device_description_matches_serde_json() {
    let device = "00112233445566778899AABBCCDDEEFF";
    let mut map = serde_json::Map::new();
    let entries: [(&str, serde_json::Value); 15] = [
        ("Id", "".into()),
        ("Code", "".into()),
        ("UserId", 0.into()),
        ("DeviceName", "WEB_APP".into()),
        ("DeviceId", device.into()),
        ("OS", "WEB".into()),
        ("OSVersion", "".into()),
        ("AppVersion", "1.0".into()),
        ("Network", "WIFI".into()),
        ("Type", "LAPTOP".into()),
        ("Status", "".into()),
        ("CreatedAt", 0.into()),
        ("UpdatedAt", 0.into()),
        ("DeletedAt", 0.into()),
        ("ExpiredAt", 0.into()),
    ];
    for (k, v) in entries {
        map.insert(k.to_string(), v);
    }
    let expected = serde_json::Value::Object(map).to_string();
    assert_eq!(device_info(device), expected);
    assert_eq!(token_request_fields(device), vec![("deviceinfo".to_string(), expected)]);
}
