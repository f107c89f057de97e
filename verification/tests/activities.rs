use bangs::activities::api::{
    accepts_chunk, admitted, bad_request, body_goal, body_text, done, file_name, find_head_end,
    parse_head, post_step, read_head, response_text, route, safe_name, stored_token,
    token_from_words, write_failed, PostStep, Route, Status,
};
use bangs::activities::{arrange, clip, file_step, is_web_link, Activity, ActivityHub, FileStep};

fn row(id: &str, title: &str, updated_at: u64) -> Activity {
    Activity {
        id: id.into(),
        title: title.into(),
        subtitle: None,
        icon: None,
        progress: None,
        url: None,
        expires_at: None,
        updated_at,
    }
}

#[test]
fn fields_are_trimmed_flattened_and_cut() {
    assert_eq!(clip("  two\nlines\tand\rmore  "), "two lines and more");
    let long: String = std::iter::repeat('字').take(250).collect();
    assert_eq!(clip(&long).chars().count(), 200);
    assert_eq!(clip("   "), "");
}

#[test]
fn only_web_links_get_through() {
    assert!(is_web_link("https://example.com"));
    assert!(is_web_link("HTTP://EXAMPLE.COM"));
    assert!(!is_web_link("file:///etc/passwd"));
    assert!(!is_web_link("javascript:alert(1)"));
    assert!(!is_web_link("myapp://open"));
}

#[test]
fn sanitize_fills_the_id_and_drops_bad_links() {
    let mut a = row("", " Build \n done ", 0);
    a.url = Some("file:///tmp/x".into());
    a.subtitle = Some("   ".into());
    a.icon = Some(" hammer ".into());
    let s = a.sanitize("from-file".into(), 42).unwrap();
    assert_eq!(s.id, "from-file");
    assert_eq!(s.title, "Build   done");
    assert_eq!(s.url, None);
    assert_eq!(s.subtitle, None);
    assert_eq!(s.icon.as_deref(), Some("hammer"));
    assert_eq!(s.updated_at, 42);

    let mut b = row("x", "t", 0);
    b.url = Some("https://ok".into());
    assert_eq!(b.sanitize(String::new(), 1).unwrap().url.as_deref(), Some("https://ok"));

    assert!(row("", "title", 0).sanitize(String::new(), 1).is_none());
    assert!(row("id", "  ", 0).sanitize(String::new(), 1).is_none());
}

#[test]
fn expired_rows_are_removed_with_their_file() {
    let mut a = row("a", "t", 0);
    a.expires_at = Some(100);
    assert!(a.expired(100));
    assert!(!a.expired(99));
    assert!(matches!(file_step(a, "a".into(), 5, 100), FileStep::Remove));
    assert!(matches!(file_step(row("", "", 0), "s".into(), 5, 100), FileStep::Skip));
    match file_step(row("", "t", 0), "stem".into(), 5, 100) {
        FileStep::Keep(k) => {
            assert_eq!(k.id, "stem");
            assert_eq!(k.updated_at, 5);
        }
        _ => panic!("kept row expected"),
    }
}

#[test]
fn newest_rows_come_first_and_at_most_twelve() {
    let rows = vec![row("b", "t", 5), row("a", "t", 5), row("c", "t", 9), row("d", "t", 1)];
    let ids: Vec<String> = arrange(rows).into_iter().map(|a| a.id).collect();
    assert_eq!(ids, vec!["c", "a", "b", "d"]);

    let many: Vec<Activity> = (0..20).map(|i| row(&format!("r{i:02}"), "t", i)).collect();
    let kept = arrange(many);
    assert_eq!(kept.len(), 12);
    assert_eq!(kept[0].id, "r19");
    assert_eq!(kept[11].id, "r08");
}

#[test]
fn the_hub_reports_changes_and_links() {
    let mut hub = ActivityHub::new();
    let mut with_link = row("a", "t", 1);
    with_link.url = Some("https://example.com".into());
    assert!(hub.publish(vec![with_link, row("b", "t", 1)]));
    let again = hub.current();
    assert!(!hub.publish(again));
    assert_eq!(hub.link_for("a").unwrap(), "https://example.com");
    assert_eq!(hub.link_for("b").unwrap_err(), "no link on b");
    assert_eq!(hub.link_for("zzz").unwrap_err(), "no link on zzz");
}

#[test]
fn the_head_ends_at_the_blank_line() {
    assert_eq!(find_head_end(b"GET / HTTP/1.1\r\nHost: x\r\n\r\nbody"), Some(27));
    assert_eq!(find_head_end(b"GET / HTTP/1.1\r\n"), None);
    assert!(accepts_chunk(0, 10));
    assert!(!accepts_chunk(0, 0));
    assert!(!accepts_chunk(32768, 1));
    assert_eq!(body_goal(10), 10);
    assert_eq!(body_goal(1 << 20), 32768);
}

#[test]
fn headers_are_read_without_case() {
    let head = parse_head(
        "POST  /activity?x=1 HTTP/1.1\r\nX-Bangs-Token:  secret \r\nCONTENT-LENGTH: 12\r\nbad line\r\n",
    )
    .unwrap();
    assert_eq!(head.method, "POST");
    assert_eq!(head.path, "/activity?x=1");
    assert_eq!(head.token.as_deref(), Some("secret"));
    assert_eq!(head.origin, None);
    assert_eq!(head.length, 12);
    let odd = parse_head("GET /\r\nContent-Length: many\r\nOrigin: http://x\r\n").unwrap();
    assert_eq!(odd.length, 0);
    assert_eq!(odd.origin.as_deref(), Some("http://x"));
    assert!(parse_head("GET\r\n").is_none());
    assert!(parse_head("").is_none());
    let from_bytes = read_head(b"GET /activities HTTP/1.1\r\n\r\n").unwrap();
    assert_eq!(from_bytes.path, "/activities");
}

#[test]
fn bodies_are_read_lossily() {
    assert_eq!(body_text(b"{\"a\":1}"), "{\"a\":1}");
    assert_eq!(body_text(&[0x66, 0xff, 0x6f]), "f\u{fffd}o");
}

fn head(method: &str, path: &str, token: Option<&str>, origin: Option<&str>) -> bangs::activities::api::RequestHead {
    bangs::activities::api::RequestHead {
        method: method.into(),
        path: path.into(),
        token: token.map(String::from),
        origin: origin.map(String::from),
        length: 0,
    }
}

fn answer(r: Route) -> (Status, String) {
    match r {
        Route::Answer(reply) => (reply.status, reply.body),
        _ => panic!("an answer was expected"),
    }
}

#[test]
fn browsers_and_strangers_are_refused() {
    let stored = Some("s".to_string());
    let (status, body) = answer(route(&head("GET", "/activities", Some("s"), Some("http://evil")), &stored, true));
    assert_eq!(status, Status::Forbidden);
    assert_eq!(body, r#"{"error":"not for browsers"}"#);
    let (status, body) = answer(route(&head("GET", "/activities", Some("t"), None), &stored, true));
    assert_eq!(status, Status::Unauthorized);
    assert_eq!(body, r#"{"error":"bad or missing X-Bangs-Token"}"#);
    let (status, _) = answer(route(&head("GET", "/activities", None, None), &stored, true));
    assert_eq!(status, Status::Unauthorized);
    let (status, body) = answer(route(&head("GET", "/activities", None, None), &None, true));
    assert_eq!(status, Status::Unauthorized);
    assert_eq!(body, "{\"error\":\"bad or missing X-Bangs-Token\"}");
    let (status, _) = answer(route(&head("GET", "/activities", Some("s"), None), &None, true));
    assert_eq!(status, Status::Unauthorized);
    let (status, body) = answer(route(&head("GET", "/activities", Some("s"), None), &stored, false));
    assert_eq!(status, Status::ServerError);
    assert_eq!(body, r#"{"error":"no config directory"}"#);
}

#[test]
fn requests_are_routed_by_method_and_path() {
    let stored = Some("s".to_string());
    assert!(matches!(route(&head("GET", "/activities?all", Some("s"), None), &stored, true), Route::List));
    assert!(matches!(route(&head("POST", "/activity", Some("s"), None), &stored, true), Route::Post));
    match route(&head("DELETE", "/activity/build-1", Some("s"), None), &stored, true) {
        Route::Delete(name) => assert_eq!(name, "build-1"),
        _ => panic!("delete expected"),
    }
    match route(&head("DELETE", "/activity//activity/x", Some("s"), None), &stored, true) {
        Route::Delete(name) => assert_eq!(name, "x"),
        _ => panic!("delete expected"),
    }
    let (status, body) = answer(route(&head("DELETE", "/activity/../etc", Some("s"), None), &stored, true));
    assert_eq!(status, Status::BadRequest);
    assert_eq!(body, r#"{"error":"bad id"}"#);
    let (status, body) = answer(route(&head("PUT", "/activity", Some("s"), None), &stored, true));
    assert_eq!(status, Status::NotFound);
    assert_eq!(body, r#"{"error":"try POST /activity"}"#);
    let (status, _) = answer(route(&head("GET", "/activities", None, None), &None, true));
    assert_eq!(status, Status::Unauthorized);
}

#[test]
fn posted_rows_need_an_id_and_a_title() {
    let r = post_step(None, 1);
    match r {
        PostStep::Answer(a) => assert_eq!(a.body, r#"{"error":"body is not an activity"}"#),
        _ => panic!(),
    }
    match post_step(Some(row("", "title", 0)), 1) {
        PostStep::Answer(a) => assert_eq!(a.body, r#"{"error":"id and title are required"}"#),
        _ => panic!(),
    }
    match post_step(Some(row("a b", "title", 0)), 1) {
        PostStep::Answer(a) => {
            assert_eq!(a.status, Status::BadRequest);
            assert_eq!(a.body, r#"{"error":"id must be letters, digits, - or _"}"#)
        }
        _ => panic!(),
    }
    match post_step(Some(row(" ci_run-7 ", "Deploy", 0)), 77) {
        PostStep::Write(name, a) => {
            assert_eq!(name, "ci_run-7");
            assert_eq!(a.updated_at, 77);
            assert_eq!(file_name(&name), "ci_run-7.json");
        }
        _ => panic!(),
    }
}

#[test]
fn safe_names_stay_in_the_directory() {
    assert_eq!(safe_name("  ok-1_A ").as_deref(), Some("ok-1_A"));
    assert_eq!(safe_name("../x"), None);
    assert_eq!(safe_name(""), None);
    assert_eq!(safe_name(&"a".repeat(64)).map(|s| s.len()), Some(64));
    assert_eq!(safe_name(&"a".repeat(65)), None);
    assert_eq!(safe_name("日本"), None);
}

#[test]
fn responses_carry_the_byte_length() {
    let text = response_text(&done());
    assert_eq!(
        text,
        "HTTP/1.1 200 OK\r\nContent-Type: application/json; charset=utf-8\r\nContent-Length: 11\r\nConnection: close\r\n\r\n{\"ok\":true}"
    );
    let bad = response_text(&bad_request());
    assert!(bad.starts_with("HTTP/1.1 400 Bad Request\r\n"));
    assert!(bad.contains("Content-Length: 23\r\n"));
    let failed = write_failed("disk \"full\"");
    assert_eq!(failed.status, Status::ServerError);
    assert_eq!(failed.body, r#"{"error":"disk \"full\""}"#);
    let wide = response_text(&write_failed("é"));
    assert!(wide.contains("Content-Length: 14\r\n"));
}

#[test]
fn tokens_are_trimmed_or_made_from_random_words() {
    assert_eq!(stored_token("  abc\n").as_deref(), Some("abc"));
    assert_eq!(stored_token(" \n"), None);
    assert_eq!(
        token_from_words(&[0, 0xff, 0x0123_4567_89ab_cdef, u64::MAX]),
        "000000000000000000000000000000ff0123456789abcdefffffffffffffffff"
    );
}

#[test]
fn file_rows_need_a_safe_id() {
    assert!(matches!(file_step(row("a b", "t", 0), "ok".into(), 5, 100), FileStep::Skip));
    assert!(matches!(file_step(row("../x", "t", 0), "ok".into(), 5, 100), FileStep::Skip));
    assert!(matches!(file_step(row("", "t", 0), "my file".into(), 5, 100), FileStep::Skip));
    assert!(matches!(file_step(row(&"x".repeat(65), "t", 0), "ok".into(), 5, 100), FileStep::Skip));
    assert!(matches!(file_step(row("ci_run-7", "t", 0), "ok".into(), 5, 100), FileStep::Keep(_)));
    let mut expired = row("../x", "t", 0);
    expired.expires_at = Some(50);
    assert!(matches!(file_step(expired, "ok".into(), 5, 100), FileStep::Remove));
    let long = format!("{}{}{}", "a".repeat(64), " ".repeat(136), "tail");
    match file_step(row(&long, "t", 0), "ok".into(), 5, 100) {
        FileStep::Keep(k) => assert_eq!(k.id, "a".repeat(64)),
        _ => panic!("kept row expected"),
    }
}

#[test]
fn failures_are_reported_as_json_strings() {
    let failed = write_failed("a\nb\u{1}\\\u{7f}é");
    assert_eq!(failed.body, "{\"error\":\"a\\nb\\u0001\\\\\u{7f}é\"}");
    for message in ["plain", "tab\there", "quote \" and \\ back", "\u{8}\u{c}\r\u{1f}"] {
        let expected = format!("{{\"error\":{}}}", serde_json::to_string(message).unwrap());
        assert_eq!(write_failed(message).body, expected);
    }
}

#[test]
fn only_requests_with_the_stored_token_are_admitted() {
    let stored = Some("s".to_string());
    assert!(admitted(&head("GET", "/activities", Some("s"), None), &stored));
    assert!(!admitted(&head("GET", "/activities", Some("s"), Some("http://x")), &stored));
    assert!(!admitted(&head("GET", "/activities", Some("t"), None), &stored));
    assert!(!admitted(&head("GET", "/activities", None, None), &None));
}
