use thermalstats::api::{
    check_reply, compare, compare_url, debug_logs_url, feedback_url, page_url, send_feedback,
    site_root, submissions_url, submit_debug_log, submit_results, ApiError,
    Comparison, DEFAULT_API_URL,
};
use thermalstats::json::Node;
use thermalstats::submit;

fn units(x: f64) -> i64 {
    (x * 1e6).round() as i64
}

#[test]
fn derives_site_root_from_v1_flag() {
    assert_eq!(site_root(DEFAULT_API_URL), "https://thermalstats.com");
    assert_eq!(site_root("http://localhost:3000/api/submissions/"), "http://localhost:3000");
}

#[test]
fn reads_standing_from_compare_replies() {
    let json = r#"{"gpu":{"model":"NVIDIA GeForce RTX 3060","count":40,"scope":"exact","avgLoad":70,"standing":{"coolerThan":81,"hotterThan":19,"count":39}}}"#;
    let c: Comparison = Comparison::parse(json).unwrap();
    let s = c.gpu.unwrap().standing.unwrap();
    assert_eq!((s.cooler_than, s.count), (units(81.0), 39));
    // Older servers: no standing.
    let c: Comparison = Comparison::parse(r#"{"cpu":{"model":"X","count":3,"scope":"exact","avgLoad":60}}"#).unwrap();
    assert!(c.cpu.unwrap().standing.is_none());
}

#[test]
fn localises_page_urls() {
    assert_eq!(page_url("https://t.com", "en", "/support"), "https://t.com/support");
    assert_eq!(page_url("https://t.com", "fr", "/support"), "https://t.com/fr/support");
}

#[test]
fn comparison_fields_are_read() {
    let c = Comparison::parse(r#"{"cpu":{"model":"X","count":3,"scope":"similar","avgLoad":60.25},"gpu":null,"more":[1]}"#).unwrap();
    let e = c.cpu.unwrap();
    assert_eq!(e.model.as_deref(), Some("X"));
    assert_eq!(e.count, Some(3));
    assert_eq!(e.scope.as_deref(), Some("similar"));
    assert_eq!(e.avg_load, Some(units(60.25)));
    assert!(c.gpu.is_none());
    // Fields may be left out, but not be of another kind.
    assert!(Comparison::parse(r#"{"cpu":{}}"#).unwrap().cpu.unwrap().model.is_none());
    assert!(Comparison::parse("{}").unwrap().cpu.is_none());
    assert!(Comparison::parse(r#"{"cpu":{"model":5}}"#).is_none());
    assert!(Comparison::parse(r#"{"cpu":{"count":-1}}"#).is_none());
    assert!(Comparison::parse(r#"{"cpu":"X"}"#).is_none());
    assert!(Comparison::parse(r#"{"cpu":{"standing":{"coolerThan":1}}}"#).is_none());
    assert!(Comparison::parse("not json").is_none());
    assert!(Comparison::parse("[]").is_none());
    // Fields may come in their order instead of by name.
    let c = Comparison::parse(r#"[null,["X",3,"exact",60,[81,19,39]]]"#).unwrap();
    assert!(c.cpu.is_none());
    let e = c.gpu.unwrap();
    assert_eq!((e.model.as_deref(), e.count, e.avg_load), (Some("X"), Some(3), Some(units(60.0))));
    assert_eq!(e.standing.unwrap().count, 39);
    assert!(Comparison::parse(r#"[null,["X",3,"exact",60]]"#).is_none());
}

#[test]
fn addresses_stand_below_the_site() {
    assert_eq!(submissions_url("https://t.com"), "https://t.com/api/submissions");
    assert_eq!(compare_url("https://t.com"), "https://t.com/api/compare");
    assert_eq!(feedback_url("https://t.com"), "https://t.com/api/feedback");
    assert_eq!(debug_logs_url("https://t.com"), "https://t.com/api/debug-logs");
}

#[test]
fn accepted_submissions_give_their_id() {
    let s = submit_results(201, r#"{"id":"abc","baselineId":"xyz"}"#).unwrap();
    assert_eq!(s.id, "abc");
    assert_eq!(s.baseline_id.as_deref(), Some("xyz"));
    let s = submit_results(200, r#"{"id":"abc"}"#).unwrap();
    assert_eq!(s.baseline_id, None);
    assert_eq!(submit_debug_log(200, r#"{"id":"log1"}"#).unwrap(), "log1");
    assert!(send_feedback(200, "{}").is_ok());
    assert!(send_feedback(204, "").is_err());
}

fn parts(e: ApiError) -> (u16, String) {
    match e {
        ApiError::Rejected { status, message } => (status, message),
        ApiError::Connection(s) => (0, s),
    }
}

#[test]
fn refusals_carry_status_and_message() {
    let e = parts(submit_results(422, r#"{"error":"Temperatures look wrong"}"#).unwrap_err());
    assert_eq!(e, (422, "Temperatures look wrong".to_string()));
    let e = parts(send_feedback(500, "Internal error").unwrap_err());
    assert_eq!(e, (500, "Internal error".to_string()));
    assert!(compare(404, "{}", "").is_err());
    assert!(submit_results(200, "{}").is_err());
    assert!(submit_debug_log(200, "no json").is_err());
    let e = parts(compare(200, "[]", "invalid length 0").unwrap_err());
    assert_eq!(e, (0, "invalid length 0".to_string()));
    let e = parts(compare(200, "no json", "x").unwrap_err());
    assert_eq!(e, (0, "Unexpected response from ThermalStats".to_string()));
    assert!(compare(200, r#"{"cpu":{"avgLoad":70}}"#, "").unwrap().cpu.is_some());
}

#[test]
fn replies_are_judged_by_status() {
    let object = || Some(Node::Object);
    assert!(check_reply(299, "{}", object(), None).is_none());
    assert!(check_reply(200, "", None, None).is_some());
    assert!(check_reply(199, "{}", object(), None).is_some());
    assert!(check_reply(300, "{}", object(), None).is_some());
    let long = "x".repeat(300);
    let (status, message) = parts(check_reply(500, &long, None, None).unwrap());
    assert_eq!((status, message.len()), (500, 200));
}

#[test]
fn an_unreachable_server_is_a_connection_error() {
    match thermalstats::api::unreachable("dns failed") {
        ApiError::Connection(s) => assert!(s.contains("dns failed")),
        ApiError::Rejected { .. } => panic!("not a refusal"),
    }
}

#[test]
fn the_plain_submission_reads_ids_and_errors() {
    let read = |id: &str| Ok(submit::SubmissionResponse { id: id.into() });
    assert_eq!(submit::submit_results(201, r#"{"id":"a1"}"#, read("a1")).unwrap(), "a1");
    match submit::submit_results(400, r#"{"error":"bad"}"#, Err("x".into())) {
        Err(submit::SubmitError::ApiRejected { status, message }) => {
            assert_eq!(status, 400);
            assert_eq!(message, "bad");
        }
        _ => panic!("should be refused"),
    }
    // What the fields were read with says what is wrong with them.
    match submit::submit_results(200, r#"{"id":"a","id":"b"}"#, Err("duplicate field `id`".into())) {
        Err(e) => assert_eq!(e.text(), "Failed to parse API response: duplicate field `id`"),
        Ok(_) => panic!("should not be read"),
    }
    assert_eq!(submit::submit_results(200, r#"{"id":"a2","n":1e999}"#, read("a2")).unwrap(), "a2");
    match submit::submit_results(503, "down", read("a3")) {
        Err(e) => assert_eq!(e.text(), "HTTP 503: down"),
        Ok(_) => panic!("should be refused"),
    }
}
