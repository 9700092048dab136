use giff::bourne::{
    find_session, pick_session, send_comment, send_to_session, session_input, Delivery, Reply,
    Session, SESSIONS_URL,
};

fn body(text: &str) -> Reply {
    Reply::Body(text.to_string())
}

fn session(directory: Option<&str>, id: Option<&str>) -> Session {
    Session { directory: directory.map(|s| s.to_string()), id: id.map(|s| s.to_string()) }
}

#[test]
fn sessions_are_listed_at_a_fixed_address() {
    assert_eq!(SESSIONS_URL, "http://localhost:4747/api/sessions");
}

#[test]
fn first_session_with_an_id_is_picked() {
    let sessions = vec![
        session(None, Some("a")),
        session(Some("/other"), Some("b")),
        session(Some("/repo"), None),
        session(Some("/repo"), Some("d")),
        session(Some("/repo"), Some("e")),
    ];
    assert_eq!(pick_session(&sessions, "/repo"), Some("d".to_string()));
    assert_eq!(pick_session(&sessions, "/other"), Some("b".to_string()));
    assert_eq!(pick_session(&sessions, "/none"), None);
    assert_eq!(pick_session(&vec![], "/repo"), None);
}

#[test]
fn session_is_found_in_the_list() {
    let reply = body(
        r#"[{"id": 7, "directory": "/repo"}, 3, {"directory": "/repo"},
            {"directory": "/repo", "id": "x\"1"}, {"directory": "/repo", "id": "late"}]"#,
    );
    assert_eq!(find_session("/repo", &reply).unwrap(), Some("x\"1".to_string()));
    assert_eq!(find_session("/elsewhere", &reply).unwrap(), None);
    assert_eq!(find_session("/repo", &body("[]")).unwrap(), None);
}

#[test]
fn each_way_to_have_no_list_is_told() {
    let message = |reply: Reply| find_session("/repo", &reply).unwrap_err().message("Helper");
    assert_eq!(message(Reply::Unreachable), "Bourne Board not running");
    assert_eq!(message(Reply::Refused("status code 500".into())), "status code 500");
    assert_eq!(message(Reply::Unreadable("not text".into())), "not text");
    assert_eq!(message(body("{}")), "Unexpected sessions response");
    assert_eq!(message(body("\"/repo\"")), "Unexpected sessions response");
    assert_eq!(message(body("")), "EOF while parsing a value at line 1 column 0");
    assert_eq!(message(body("[1")), "EOF while parsing a list at line 1 column 2");
}

#[test]
fn comment_is_posted_to_the_session() {
    let reply = body(r#"[{"directory": "/repo", "id": "abc"}]"#);
    let request = send_comment("/repo", "say \"hi\"\n\t—", &reply).unwrap();
    assert_eq!(request.url, "http://localhost:4748/input/abc");
    assert_eq!(request.body, "{\"text\":\"say \\\"hi\\\"\\n\\t—\"}");
    let value: serde_json::Value = serde_json::from_str(&request.body).unwrap();
    assert_eq!(value.get("text").and_then(|v| v.as_str()), Some("say \"hi\"\n\t—"));
}

#[test]
fn comment_without_a_session_is_refused() {
    let message = |reply: Reply| match send_comment("/repo", "x", &reply) {
        Err(e) => e.message("Helper"),
        Ok(_) => panic!("sent"),
    };
    assert_eq!(message(body("[]")), "No Helper session found for this directory");
    assert_eq!(message(Reply::Unreachable), "Bourne Board not running");
}

#[test]
fn delivery_is_judged() {
    assert!(send_to_session(&Delivery::Answered(200)).is_ok());
    assert!(send_to_session(&Delivery::Answered(204)).is_ok());
    assert_eq!(
        send_to_session(&Delivery::Answered(404)).unwrap_err().message("Helper"),
        "Session PTY not running"
    );
    assert_eq!(
        send_to_session(&Delivery::Failed("timed out".into())).unwrap_err().message("Helper"),
        "Failed to send comment: timed out"
    );
}

#[test]
fn input_carries_every_character() {
    let text: String = ('\u{0}'..='\u{ff}').collect();
    let request = session_input("s", &text);
    let value: serde_json::Value = serde_json::from_str(&request.body).unwrap();
    assert_eq!(value.get("text").and_then(|v| v.as_str()), Some(text.as_str()));
}
