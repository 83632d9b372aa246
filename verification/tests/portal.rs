use remote_screen::portal::{
    check_wait, checked_path, is_response, options, request_path, response_result,
    sender_component, session_path, stream_node, token, Answer, Choice, Opening, PortalError, Step,
};

#[test]
fn cancellation_and_failure_are_not_success() {
    assert!(response_result("Start", 0).is_ok());
    assert!(response_result("Start", 1)
        .unwrap_err()
        .text()
        .contains("cancelled"));
    assert!(response_result("Start", 2)
        .unwrap_err()
        .text()
        .contains("rejected"));
}

#[test]
fn deadline_interrupts_a_missing_response() {
    let result = check_wait("test response", false, 10, 10);
    assert!(result.unwrap_err().text().contains("timed out"));
    assert!(check_wait("test response", false, 9, 10).is_ok());
}

#[test]
fn cancellation_interrupts_a_missing_response() {
    let result = check_wait("test response", true, 10, 30_000);
    assert!(result.unwrap_err().text().contains("cancelled"));
}

#[test]
fn already_cancelled_does_not_start_the_operation() {
    let result = check_wait("test response", true, 0, 30_000);
    assert!(result.unwrap_err().text().contains("cancelled"));
}

#[test]
fn tokens_are_unique_object_path_components() {
    let first = token(4711, 0);
    assert_ne!(first, token(4711, 1));
    assert!(first
        .bytes()
        .all(|b| b.is_ascii_alphanumeric() || b == b'_'));
    assert_eq!(first, "remote_screen_4711_0");
}

#[test]
fn stream_reply_preserves_node_and_requires_one_monitor() {
    assert_eq!(stream_node(Ok(vec![73u32])).unwrap(), 73);
    assert!(stream_node(Ok(vec![])).is_err());
    assert!(stream_node(Ok(vec![73u32, 74u32])).is_err());
    assert_eq!(
        stream_node(Err("incorrect type".to_owned())).unwrap_err().text(),
        "invalid portal streams response: incorrect type"
    );
}

#[test]
fn paths_hold_the_sender_and_the_token() {
    assert_eq!(sender_component(":1.42"), "1_42");
    assert_eq!(
        request_path(":1.42", "t"),
        "/org/freedesktop/portal/desktop/request/1_42/t"
    );
    assert_eq!(
        session_path(":1.42", "t").unwrap(),
        "/org/freedesktop/portal/desktop/session/1_42/t"
    );
    assert!(session_path(":1-42", "t").is_err());
    assert!(checked_path("/a/b".to_owned()).is_ok());
    assert!(checked_path("no/path".to_owned()).is_err());
    let refused = zbus::zvariant::ObjectPath::try_from("/a//b").unwrap_err();
    assert_eq!(
        checked_path("/a//b".to_owned()).unwrap_err().text(),
        refused.to_string()
    );
}

#[test]
fn the_portal_is_opened_step_by_step() {
    let session = "/org/freedesktop/portal/desktop/session/1_42/t".to_owned();
    let mut opening = Opening::new(session.clone());
    assert_eq!(opening.step.method_name(), "CreateSession");
    assert!(opening.advance(Answer::Created(Some(session))).is_ok());
    assert_eq!(opening.step.method_name(), "SelectSources");
    assert!(opening.advance(Answer::Selected).is_ok());
    assert_eq!(opening.step.method_name(), "Start");
    assert!(opening
        .advance(Answer::Started(Some(Ok(vec![9]))))
        .is_ok());
    assert_eq!(opening.node, 9);
    let mut nameless = Opening::new("/s".to_owned());
    assert_eq!(
        nameless.advance(Answer::Created(None)),
        Err(PortalError::NoHandle)
    );
    assert_eq!(
        nameless.advance(Answer::Created(Some("s".to_owned()))),
        Err(PortalError::InvalidPath)
    );
    assert_eq!(nameless.session, "/s");
}

#[test]
fn one_monitor_is_asked_for_with_its_cursor() {
    let asked = options(Step::SelectSources, "t", "s");
    assert!(asked.contains(&("types", Choice::Number(1))));
    assert!(asked.contains(&("multiple", Choice::Flag(false))));
    assert!(asked.contains(&("cursor_mode", Choice::Number(2))));
}

#[test]
fn responses_are_those_of_the_request() {
    assert!(is_response(Some("/a"), "/a"));
    assert!(!is_response(Some("/b"), "/a"));
    assert!(!is_response(None, "/a"));
    let error: PortalError<String> = response_result("Start", 1).unwrap_err();
    assert!(!error.text().is_empty());
}
