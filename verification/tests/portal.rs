use atbswp::record::portal::{
    alt_path, apply_stream_prop, first_stream, is_our_response, portal_sender, request_path,
    request_token, response_rule, restore_token, select_checked, session_of, start_checked,
    Stream, Value,
};

#[test]
fn request_names() {
    assert_eq!(portal_sender(":1.42"), "1_42");
    assert_eq!(portal_sender("::a.b.c"), "a_b_c");
    assert_eq!(request_token(1234, 7), "atbswp1234_7");
    assert_eq!(
        request_path("1_42", "atbswp1234_7"),
        "/org/freedesktop/portal/desktop/request/1_42/atbswp1234_7"
    );
    assert_eq!(
        response_rule("/p"),
        "type='signal',interface='org.freedesktop.portal.Request',member='Response',path='/p'"
    );
}

#[test]
fn which_answer_is_ours() {
    assert_eq!(alt_path("/a", "/a"), "");
    assert_eq!(alt_path("/b", "/a"), "/b");
    assert!(is_our_response(true, "/a", "/a", ""));
    assert!(is_our_response(true, "/b", "/a", "/b"));
    assert!(!is_our_response(true, "", "/a", ""));
    assert!(!is_our_response(false, "/a", "/a", ""));
}

#[test]
fn stream_properties() {
    let mut s = Stream { node_id: 3, size: None, position: None };
    apply_stream_prop(&mut s, "size", &Value::I32Pair(1920, 1080));
    apply_stream_prop(&mut s, "position", &Value::I32Pair(0, 0));
    apply_stream_prop(&mut s, "size", &Value::U32(5));
    apply_stream_prop(&mut s, "other", &Value::I32Pair(9, 9));
    assert_eq!(s, Stream { node_id: 3, size: Some((1920, 1080)), position: Some((0, 0)) });
}

#[test]
fn screencast_answers() {
    let rs = vec![
        ("x".to_string(), Value::Other),
        ("session_handle".to_string(), Value::Str("/s/1".to_string())),
        ("session_handle".to_string(), Value::Str("/s/2".to_string())),
    ];
    assert_eq!(session_of(0, &rs).unwrap(), "/s/1");
    assert_eq!(session_of(2, &rs).unwrap_err(), "ScreenCast CreateSession failed (response 2)");
    assert_eq!(session_of(0, &[]).unwrap_err(), "ScreenCast CreateSession failed (response 0)");
    assert!(select_checked(0).is_ok());
    assert_eq!(
        select_checked(3).unwrap_err(),
        "ScreenCast SelectSources failed (response 3); does the compositor support cursor metadata?"
    );
    assert!(start_checked(0).is_ok());
    assert_eq!(start_checked(1).unwrap_err(), "screen capture was cancelled");
    assert_eq!(start_checked(2).unwrap_err(), "ScreenCast Start failed (response 2)");
    let s = Stream { node_id: 44, size: Some((800, 600)), position: None };
    let started = vec![
        ("restore_token".to_string(), Value::Str("tok".to_string())),
        ("streams".to_string(), Value::Streams(vec![s, Stream { node_id: 45, size: None, position: None }])),
    ];
    assert_eq!(restore_token(&started), Some("tok".to_string()));
    assert_eq!(first_stream(&started), Ok(s));
    assert_eq!(restore_token(&rs), None);
    assert_eq!(
        first_stream(&[("streams".to_string(), Value::Streams(vec![]))]).unwrap_err(),
        "ScreenCast Start returned no streams"
    );
}
