use wi_mesh_login::portal::{
    build_login_payload, format_headers, login_fields, login_outcome, text_contains, LoginOutcome, login_request_from_form, select_interface_address,
    FormLookup, HtmlElement, InterfaceAddress, IpAddress, LoginError,
};

fn element(attributes: &[(&str, &str)]) -> HtmlElement {
    HtmlElement {
        attributes: attributes.iter().map(|(k, v)| (k.to_string(), v.to_string())).collect(),
    }
}

#[test]
fn builds_payload_and_resolves_relative_action() {
    let page = r#"<form id="login-user" action="/login"><input name="token" value="abc"><input name="username"><input type="password" name="password"></form>"#;
    let page_url = url::Url::parse("https://portal.test/start").unwrap();
    let (action, payload) =
        build_login_payload(page, page_url.as_str(), "alice@example.test", "secret").unwrap();
    assert_eq!(action.as_str(), "https://portal.test/login");
    assert_eq!(
        payload,
        "token=abc&username=alice%40example.test&password=secret&popup=true"
    );
}

#[test]
fn payload_skips_buttons_and_keeps_popup_and_case() {
    let page = r#"<html><body>
        <form id="other" action="/nope"><input name="x" value="1"></form>
        <form id="login-user" action="https://login.net.vn/login?next=1">
          <input type="hidden" name="dst" value="http://example.com/a b">
          <input name="UserName" value="ignored">
          <input type="PASSWORD" name="Password">
          <input type="checkbox" name="popup" value="false">
          <input type="SUBMIT" name="go" value="Go">
          <input type="image" name="img">
          <input type="file" name="f">
          <input type="reset" name="r">
          <button name="b">x</button>
          <input value="no name">
        </form></body></html>"#;
    let (action, payload) =
        build_login_payload(page, "http://connectivitycheck.gstatic.com/generate_204", "bob", "p w&=").unwrap();
    assert_eq!(action, "https://login.net.vn/login?next=1");
    assert_eq!(
        payload,
        "dst=http%3A%2F%2Fexample.com%2Fa+b&UserName=bob&Password=p+w%26%3D&popup=false"
    );
}

#[test]
fn payload_matches_form_urlencoded_serializer() {
    let page = r#"<form id="login-user" action="login"><input name="é ü" value="☃*-._~!"></form>"#;
    let (action, payload) = build_login_payload(page, "https://portal.test/dir/start", "ä", "\u{1F600}").unwrap();
    assert_eq!(action, "https://portal.test/dir/login");
    let expected = url::form_urlencoded::Serializer::new(String::new())
        .extend_pairs([("é ü", "☃*-._~!"), ("username", "ä"), ("password", "\u{1F600}"), ("popup", "true")])
        .finish();
    assert_eq!(payload, expected);
    let decoded: Vec<(String, String)> = url::form_urlencoded::parse(payload.as_bytes()).into_owned().collect();
    assert_eq!(
        decoded,
        vec![
            ("é ü".to_string(), "☃*-._~!".to_string()),
            ("username".to_string(), "ä".to_string()),
            ("password".to_string(), "\u{1F600}".to_string()),
            ("popup".to_string(), "true".to_string()),
        ]
    );
}

#[test]
fn payload_errors() {
    let no_form = build_login_payload("<p>hello</p>", "https://portal.test/", "u", "p");
    assert!(matches!(no_form, Err(LoginError::FormNotFound)));
    let no_action = build_login_payload(r#"<form id="login-user"></form>"#, "https://portal.test/", "u", "p");
    assert!(matches!(no_action, Err(LoginError::MissingAction)));
    let bad_action =
        build_login_payload(r#"<form id="login-user" action="http://[::1"></form>"#, "https://portal.test/", "u", "p");
    assert!(matches!(bad_action, Err(LoginError::InvalidAction(_))));
    let bad_base = build_login_payload(r#"<form id="login-user" action="/x"></form>"#, "not a url", "u", "p");
    assert!(matches!(bad_base, Err(LoginError::InvalidAction(_))));
}

#[test]
fn request_from_lookup_outcomes() {
    assert!(matches!(
        login_request_from_form(&FormLookup::InvalidSelector, "https://a.test/", "u", "p"),
        Err(LoginError::SelectorRejected)
    ));
    assert!(matches!(
        login_request_from_form(&FormLookup::NotFound, "https://a.test/", "u", "p"),
        Err(LoginError::FormNotFound)
    ));
    let form = FormLookup::Found(element(&[("action", "post")]), vec![element(&[("name", "k"), ("value", "v")])]);
    let (action, body) = login_request_from_form(&form, "https://a.test/x/y", "u", "p").unwrap();
    assert_eq!(action, "https://a.test/x/post");
    assert_eq!(body, "k=v&username=u&password=p&popup=true");
}

#[test]
fn login_fields_fill_in_credentials() {
    let inputs = vec![
        element(&[("name", "username"), ("value", "old")]),
        element(&[("name", "USERNAME")]),
        element(&[("name", "Popup"), ("value", "0")]),
        element(&[("type", "Button"), ("name", "password")]),
    ];
    let fields = login_fields(&inputs, "me", "pw");
    let expected: Vec<(String, String)> = vec![
        ("username".into(), "me".into()),
        ("USERNAME".into(), "me".into()),
        ("Popup".into(), "0".into()),
        ("password".into(), "pw".into()),
    ];
    assert_eq!(fields, expected);
    assert_eq!(
        login_fields(&vec![], "a", "b"),
        vec![
            ("username".to_string(), "a".to_string()),
            ("password".to_string(), "b".to_string()),
            ("popup".to_string(), "true".to_string())
        ]
    );
}

#[test]
fn element_attribute_lookup_takes_first() {
    let e = element(&[("name", "a"), ("name", "b")]);
    assert_eq!(e.attr("name"), Some("a"));
    assert_eq!(e.attr("value"), None);
}

#[test]
fn interface_address_choice() {
    let addr = |name: &str, lo: bool, ip: IpAddress| InterfaceAddress { name: name.to_string(), is_loopback: lo, ip };
    let list = vec![
        addr("eth0", false, IpAddress::V6(1)),
        addr("lo", true, IpAddress::V4(0x7f000001)),
        addr("eth0", true, IpAddress::V4(0x7f000002)),
        addr("eth0", false, IpAddress::V4(0xc0a80005)),
        addr("eth0", false, IpAddress::V4(0xc0a80006)),
    ];
    assert_eq!(select_interface_address(&list, "eth0"), Some(IpAddress::V4(0xc0a80005)));
    assert_eq!(select_interface_address(&list, "lo"), None);
    assert_eq!(select_interface_address(&list, "wlan0"), None);
}

#[test]
fn headers_one_per_line() {
    let headers = vec![
        ("content-type".to_string(), Some("text/html".to_string())),
        ("x-bin".to_string(), None),
    ];
    assert_eq!(format_headers(&headers), "content-type: text/html\nx-bin: <non-UTF-8>");
    assert_eq!(format_headers(&vec![]), "");
}

#[test]
fn login_outcomes() {
    assert_eq!(login_outcome(true, "Total traffic limit reached!"), LoginOutcome::Connected);
    assert_eq!(
        login_outcome(false, "<p>Error: Total traffic limit reached! Try again</p>"),
        LoginOutcome::TrafficLimitReached
    );
    assert_eq!(login_outcome(false, "Total traffic limit reached"), LoginOutcome::StillOffline);
    assert_eq!(login_outcome(false, ""), LoginOutcome::StillOffline);
}

#[test]
fn text_search() {
    for (hay, needle) in [("abc", ""), ("", ""), ("", "a"), ("aab", "ab"), ("héllo", "éll"), ("abab", "bb"), ("x", "xy")] {
        assert_eq!(text_contains(hay, needle), hay.contains(needle), "{hay:?} {needle:?}");
    }
}
