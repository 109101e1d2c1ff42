use openai_models::errors::{ErrorKind, FetchError, TransportFailure};
use openai_models::fetch::{
    begin_fetch, clamp_timeout, decode_event, finish_fetch, normalize_provider_id, prepare_fetch,
    should_fallback, status_is_success, FetchEvent, FetchOpenAiModelsResponse, FetchOutcome,
    FetchStep, PendingFetch,
};
use openai_models::models::{OpenAiModelItem, PayloadFault};

fn two_urls() -> Vec<String> {
    vec!["https://api.example.com/v1/models".to_string(), "https://api.example.com/models".to_string()]
}

fn pending(step: FetchStep) -> PendingFetch {
    match step {
        FetchStep::Request(pending) => pending,
        FetchStep::Finished(result) => panic!("fetch ended early: {:?}", result),
    }
}

fn finished(step: FetchStep) -> Result<FetchOpenAiModelsResponse, FetchError> {
    match step {
        FetchStep::Finished(result) => result,
        FetchStep::Request(pending) => panic!("fetch goes on with {}", pending.url()),
    }
}

fn status(status: u16, text: &str) -> FetchEvent {
    FetchEvent::Failure { status, text: text.to_string() }
}

fn timeout() -> FetchEvent {
    FetchEvent::TransportFailed(TransportFailure {
        timed_out: true,
        detail: "operation timed out".to_string(),
    })
}

fn success(body: &str, elapsed_ms: u64) -> FetchEvent {
    FetchEvent::Success { body: body.as_bytes().to_vec(), elapsed_ms }
}

#[test]
fn timeout_is_clamped_and_defaulted() {
    assert_eq!(clamp_timeout(None), 15);
    assert_eq!(clamp_timeout(Some(0)), 5);
    assert_eq!(clamp_timeout(Some(4)), 5);
    assert_eq!(clamp_timeout(Some(5)), 5);
    assert_eq!(clamp_timeout(Some(30)), 30);
    assert_eq!(clamp_timeout(Some(120)), 120);
    assert_eq!(clamp_timeout(Some(121)), 120);
    assert_eq!(clamp_timeout(Some(u64::MAX)), 120);
}

#[test]
fn success_is_two_hundred_to_two_ninety_nine() {
    assert!(!status_is_success(0));
    assert!(!status_is_success(199));
    assert!(status_is_success(200));
    assert!(status_is_success(204));
    assert!(status_is_success(299));
    assert!(!status_is_success(300));
    assert!(!status_is_success(404));
}

#[test]
fn empty_base_url_is_invalid_input() {
    for base in ["", "   ", "/", " / "] {
        let error = prepare_fetch(base, "sk-key", None).unwrap_err();
        assert_eq!(error.kind, ErrorKind::InvalidInput);
        assert_eq!(error.message, "Base URL 不能为空");
    }
}

#[test]
fn empty_api_key_is_invalid_input() {
    for key in ["", "  ", "\n\t"] {
        let error = prepare_fetch("https://api.example.com", key, Some(10)).unwrap_err();
        assert_eq!(error.kind, ErrorKind::InvalidInput);
        assert_eq!(error.message, "API Key 不能为空");
    }
}

#[test]
fn empty_base_url_is_reported_before_empty_api_key() {
    let error = prepare_fetch(" ", " ", None).unwrap_err();
    assert_eq!(error.message, "Base URL 不能为空");
}

#[test]
fn valid_input_is_laid_out() {
    let request = prepare_fetch(" https://api.example.com/ ", "  sk-key\n", Some(500)).unwrap();
    assert_eq!(request.urls, two_urls());
    assert_eq!(request.authorization, "Bearer sk-key");
    assert_eq!(request.accept, "application/json");
    assert_eq!(request.timeout_secs, 120);
    let request = prepare_fetch("https://api.example.com/v1", "k", None).unwrap();
    assert_eq!(request.urls, vec!["https://api.example.com/v1/models".to_string()]);
    assert_eq!(request.authorization, "Bearer k");
    assert_eq!(request.timeout_secs, 15);
}

#[test]
fn fetch_without_candidates_fails_at_once() {
    let error = finished(begin_fetch(Vec::new())).unwrap_err();
    assert_eq!(error.kind, ErrorKind::FetchFailed);
    assert_eq!(error.message, "获取模型失败");
}

#[test]
fn fetch_begins_with_the_first_candidate() {
    let first = pending(begin_fetch(two_urls()));
    assert_eq!(first.url(), "https://api.example.com/v1/models");
    assert!(!first.is_last());
    assert!(first.warnings().is_empty());
}

#[test]
fn not_found_on_the_first_of_two_tries_the_second() {
    let first = pending(begin_fetch(two_urls()));
    let second = pending(first.resolve(status(404, "Not Found")));
    assert_eq!(second.url(), "https://api.example.com/models");
    assert!(second.is_last());
    assert_eq!(
        second.warnings(),
        &vec!["地址 https://api.example.com/v1/models 返回 HTTP 404，已尝试备用地址".to_string()]
    );
}

#[test]
fn method_not_allowed_on_the_first_of_two_tries_the_second() {
    let first = pending(begin_fetch(two_urls()));
    let second = pending(first.resolve(status(405, "")));
    assert_eq!(second.url(), "https://api.example.com/models");
    assert_eq!(
        second.warnings(),
        &vec!["地址 https://api.example.com/v1/models 返回 HTTP 405，已尝试备用地址".to_string()]
    );
}

#[test]
fn not_found_on_the_only_candidate_is_an_endpoint_mismatch() {
    let only = pending(begin_fetch(vec!["https://api.example.com/v1/models".to_string()]));
    assert!(only.is_last());
    let error = finished(only.resolve(status(404, "nope"))).unwrap_err();
    assert_eq!(error.kind, ErrorKind::EndpointMismatch);
    assert_eq!(
        error.message,
        "模型接口不存在，请确认端点是否 OpenAI 兼容（HTTP 404）: nope"
    );
}

#[test]
fn not_found_on_both_candidates_is_an_endpoint_mismatch() {
    let first = pending(begin_fetch(two_urls()));
    let second = pending(first.resolve(status(404, "")));
    let error = finished(second.resolve(status(405, "gone"))).unwrap_err();
    assert_eq!(error.kind, ErrorKind::EndpointMismatch);
    assert_eq!(
        error.message,
        "模型接口不存在，请确认端点是否 OpenAI 兼容（HTTP 405）: gone"
    );
}

#[test]
fn unauthorized_aborts_on_the_first_candidate() {
    let first = pending(begin_fetch(two_urls()));
    let error = finished(first.resolve(status(401, "bad key"))).unwrap_err();
    assert_eq!(error.kind, ErrorKind::AuthFailure);
    assert_eq!(error.message, "鉴权失败，请检查 API Key（HTTP 401）: bad key");
}

#[test]
fn unauthorized_aborts_on_the_second_candidate() {
    let first = pending(begin_fetch(two_urls()));
    let second = pending(first.resolve(status(404, "")));
    let error = finished(second.resolve(status(401, ""))).unwrap_err();
    assert_eq!(error.kind, ErrorKind::AuthFailure);
}

#[test]
fn server_error_and_rate_limit_abort_without_fallback() {
    let first = pending(begin_fetch(two_urls()));
    let error = finished(first.resolve(status(500, "boom"))).unwrap_err();
    assert_eq!(error.kind, ErrorKind::HttpFailure);
    assert_eq!(error.message, "获取模型失败（HTTP 500）: boom");
    let first = pending(begin_fetch(two_urls()));
    let error = finished(first.resolve(status(429, ""))).unwrap_err();
    assert_eq!(error.kind, ErrorKind::RateLimited);
}

#[test]
fn timeout_on_every_candidate_ends_in_timeout() {
    let first = pending(begin_fetch(two_urls()));
    let second = pending(first.resolve(timeout()));
    assert_eq!(
        second.warnings(),
        &vec!["地址 https://api.example.com/v1/models 请求失败，已尝试备用地址".to_string()]
    );
    let error = finished(second.resolve(timeout())).unwrap_err();
    assert_eq!(error.kind, ErrorKind::TransportTimeout);
    assert_eq!(error.message, "请求超时，请检查网络或代理配置");
}

#[test]
fn timeout_on_each_of_three_candidates_warns_twice() {
    let urls = vec!["a".to_string(), "b".to_string(), "c".to_string()];
    let first = pending(begin_fetch(urls));
    let second = pending(first.resolve(timeout()));
    let third = pending(second.resolve(timeout()));
    assert_eq!(third.url(), "c");
    assert_eq!(
        third.warnings(),
        &vec![
            "地址 a 请求失败，已尝试备用地址".to_string(),
            "地址 b 请求失败，已尝试备用地址".to_string()
        ]
    );
    let error = finished(third.resolve(timeout())).unwrap_err();
    assert_eq!(error.kind, ErrorKind::TransportTimeout);
}

#[test]
fn connection_failure_on_the_last_candidate_is_quoted() {
    let only = pending(begin_fetch(vec!["https://down.example.com/models".to_string()]));
    let event = FetchEvent::TransportFailed(TransportFailure {
        timed_out: false,
        detail: "error sending request".to_string(),
    });
    let error = finished(only.resolve(event)).unwrap_err();
    assert_eq!(error.kind, ErrorKind::TransportOther);
    assert_eq!(error.message, "请求失败: error sending request");
}

#[test]
fn success_on_the_first_candidate_has_no_warnings() {
    let first = pending(begin_fetch(two_urls()));
    let body = r#"{"object":"list","data":[{"id":"z"},{"id":"a"},{"id":"z","owned_by":"x"}]}"#;
    let response = finished(first.resolve(success(body, 42))).unwrap();
    assert_eq!(response.resolved_url, "https://api.example.com/v1/models");
    assert_eq!(response.elapsed_ms, 42);
    assert!(response.warnings.is_empty());
    assert_eq!(response.models.len(), 2);
    assert_eq!(response.models[0].id, "a");
    assert_eq!(response.models[1].id, "z");
    assert_eq!(response.models[1].owned_by, None);
}

#[test]
fn success_after_fallback_carries_the_warnings() {
    let first = pending(begin_fetch(two_urls()));
    let second = pending(first.resolve(status(404, "")));
    let body = r#"{"data":[{"id":"gpt-4o","owned_by":"openai","created":1715367049}]}"#;
    let response = finished(second.resolve(success(body, 1234))).unwrap();
    assert_eq!(response.resolved_url, "https://api.example.com/models");
    assert_eq!(response.elapsed_ms, 1234);
    assert_eq!(
        response.warnings,
        vec!["地址 https://api.example.com/v1/models 返回 HTTP 404，已尝试备用地址".to_string()]
    );
    assert_eq!(response.models.len(), 1);
    assert_eq!(response.models[0].id, "gpt-4o");
    assert_eq!(response.models[0].owned_by.as_deref(), Some("openai"));
    assert_eq!(response.models[0].created, Some(1715367049));
}

#[test]
fn success_after_transport_failure_carries_the_warning() {
    let first = pending(begin_fetch(two_urls()));
    let second = pending(first.resolve(timeout()));
    let response = finished(second.resolve(success(r#"{"data":[]}"#, 7))).unwrap();
    assert!(response.models.is_empty());
    assert_eq!(
        response.warnings,
        vec!["地址 https://api.example.com/v1/models 请求失败，已尝试备用地址".to_string()]
    );
}

#[test]
fn body_that_is_not_json_aborts_without_fallback() {
    let first = pending(begin_fetch(two_urls()));
    let error = finished(first.resolve(success("<html>hello</html>", 3))).unwrap_err();
    assert_eq!(error.kind, ErrorKind::ParseFailure);
    assert!(error.message.starts_with("模型接口返回非 JSON: "), "{}", error.message);
    assert!(error.message.len() > "模型接口返回非 JSON: ".len());
}

#[test]
fn body_that_is_no_model_list_aborts_without_fallback() {
    let first = pending(begin_fetch(two_urls()));
    let error = finished(first.resolve(success(r#"{"data":{"id":"a"}}"#, 3))).unwrap_err();
    assert_eq!(error.kind, ErrorKind::ParseFailure);
    assert_eq!(error.message, "模型列表解析失败: `data` is not an array");
    let first = pending(begin_fetch(two_urls()));
    let error = finished(first.resolve(success("[]", 3))).unwrap_err();
    assert_eq!(error.message, "模型列表解析失败: payload is not an object");
}

#[test]
fn unreadable_body_aborts_without_fallback() {
    let first = pending(begin_fetch(two_urls()));
    let event = FetchEvent::Unreadable { detail: "connection reset".to_string() };
    let error = finished(first.resolve(event)).unwrap_err();
    assert_eq!(error.kind, ErrorKind::ParseFailure);
    assert_eq!(error.message, "模型接口返回非 JSON: connection reset");
}

#[test]
fn body_is_decoded_and_read() {
    let body = r#"{"data":[{"id":"m","owned_by":null,"created":-12,"extra":[true,1.5,{"k":"v"}]},{"id":" n ","owned_by":"o"}],"n":18446744073709551615}"#;
    let entries = match decode_event(success(body, 9)) {
        FetchOutcome::Success { entries, elapsed_ms } => {
            assert_eq!(elapsed_ms, 9);
            entries
        }
        other => panic!("not read: {:?}", other),
    };
    assert_eq!(entries.len(), 2);
    assert_eq!(entries[0].id.as_deref(), Some("m"));
    assert_eq!(entries[0].owned_by, None);
    assert_eq!(entries[0].created, Some(-12));
    assert_eq!(entries[1].id.as_deref(), Some(" n "));
    assert_eq!(entries[1].owned_by.as_deref(), Some("o"));
    assert_eq!(entries[1].created, None);
}

#[test]
fn body_that_is_no_model_list_is_malformed() {
    assert!(matches!(
        decode_event(success("[1,2]", 1)),
        FetchOutcome::Malformed { fault: PayloadFault::NotAnObject }
    ));
    assert!(matches!(
        decode_event(success(r#"{"data":1}"#, 1)),
        FetchOutcome::Malformed { fault: PayloadFault::DataNotAnArray }
    ));
    assert!(matches!(
        decode_event(success(r#"{"data":[1]}"#, 1)),
        FetchOutcome::Malformed { fault: PayloadFault::MalformedEntry }
    ));
}

#[test]
fn fractional_or_oversized_timestamp_fails_the_list() {
    for body in [
        r#"{"data":[{"id":"m","created":1.5}]}"#,
        r#"{"data":[{"id":"m","created":9223372036854775808}]}"#,
    ] {
        let first = pending(begin_fetch(two_urls()));
        let error = finished(first.resolve(success(body, 1))).unwrap_err();
        assert_eq!(error.kind, ErrorKind::ParseFailure);
        assert_eq!(error.message, "模型列表解析失败: malformed entry in `data`");
    }
}

#[test]
fn events_other_than_success_are_passed_on() {
    assert!(matches!(
        decode_event(status(404, "x")),
        FetchOutcome::Failure { status: 404, text } if text == "x"
    ));
    assert!(matches!(
        decode_event(timeout()),
        FetchOutcome::TransportFailed(TransportFailure { timed_out: true, .. })
    ));
    assert!(matches!(
        decode_event(FetchEvent::Unreadable { detail: "d".to_string() }),
        FetchOutcome::Undecodable { detail } if detail == "d"
    ));
    assert!(matches!(decode_event(success("nope", 1)), FetchOutcome::Undecodable { .. }));
}

#[test]
fn only_transport_failures_and_missing_endpoints_permit_fallback() {
    assert!(should_fallback(&decode_event(timeout())));
    assert!(should_fallback(&decode_event(status(404, ""))));
    assert!(should_fallback(&decode_event(status(405, ""))));
    for code in [400u16, 401, 403, 406, 429, 500, 502] {
        assert!(!should_fallback(&decode_event(status(code, ""))));
    }
    assert!(!should_fallback(&decode_event(success("{}", 1))));
    assert!(!should_fallback(&decode_event(success("not json", 1))));
    assert!(!should_fallback(&decode_event(success("[]", 1))));
    assert!(!should_fallback(&decode_event(FetchEvent::Unreadable { detail: String::new() })));
}

#[test]
fn decided_outcome_needs_no_decoding() {
    let first = pending(begin_fetch(two_urls()));
    let entries = vec![
        OpenAiModelItem { id: Some("only".to_string()), owned_by: None, created: Some(3) },
        OpenAiModelItem { id: None, owned_by: None, created: None },
    ];
    let step = first.resolve_decoded(FetchOutcome::Success { entries, elapsed_ms: 5 });
    let response = finished(step).unwrap();
    assert_eq!(response.models.len(), 1);
    assert_eq!(response.models[0].id, "only");
    assert_eq!(response.models[0].created, Some(3));
    assert_eq!(response.resolved_url, "https://api.example.com/v1/models");
    assert_eq!(response.elapsed_ms, 5);

    let first = pending(begin_fetch(two_urls()));
    let step = first.resolve_decoded(FetchOutcome::Malformed { fault: PayloadFault::NotAnObject });
    let error = finished(step).unwrap_err();
    assert_eq!(error.kind, ErrorKind::ParseFailure);
    assert_eq!(error.message, "模型列表解析失败: payload is not an object");
}

#[test]
fn fetch_can_be_finished_by_hand() {
    let result = finish_fetch(
        "u".to_string(),
        vec!["w".to_string()],
        FetchOutcome::Success { entries: Vec::new(), elapsed_ms: 1 },
    )
    .unwrap();
    assert_eq!(result.resolved_url, "u");
    assert_eq!(result.warnings, vec!["w".to_string()]);
    assert!(result.models.is_empty());
    let error = finish_fetch(
        "u".to_string(),
        Vec::new(),
        FetchOutcome::Failure { status: 403, text: String::new() },
    )
    .unwrap_err();
    assert_eq!(error.kind, ErrorKind::AuthFailure);
}

#[test]
fn decoded_bodies_parse_as_their_values_do() {
    let first = pending(begin_fetch(two_urls()));
    let body = r#"{"data": [{"id":""},{"name":"invalid"}]}"#;
    let response = finished(first.resolve(success(body, 1))).unwrap();
    assert!(response.models.is_empty());

    let first = pending(begin_fetch(two_urls()));
    let response = finished(first.resolve(success(r#"{"data": []}"#, 1))).unwrap();
    assert!(response.models.is_empty());

    let first = pending(begin_fetch(two_urls()));
    let response = finished(first.resolve(success("{}", 1))).unwrap();
    assert!(response.models.is_empty());

    let first = pending(begin_fetch(two_urls()));
    let body = "{\"data\":[{\"id\":\"\\u6a21\\u578b  \"},{\"id\":\" b\"},{\"id\":\"B\"}]}";
    let response = finished(first.resolve(success(body, 1))).unwrap();
    let ids: Vec<&str> = response.models.iter().map(|m| m.id.as_str()).collect();
    assert_eq!(ids, vec!["B", "b", "模型"]);
}

#[test]
fn invalid_utf8_body_is_not_json() {
    let first = pending(begin_fetch(two_urls()));
    let event = FetchEvent::Success { body: vec![b'"', 0xff, b'"'], elapsed_ms: 1 };
    let error = finished(first.resolve(event)).unwrap_err();
    assert_eq!(error.kind, ErrorKind::ParseFailure);
    assert!(error.message.starts_with("模型接口返回非 JSON: "));
}

#[test]
fn blank_provider_id_counts_as_none() {
    assert_eq!(normalize_provider_id(None), None);
    assert_eq!(normalize_provider_id(Some("")), None);
    assert_eq!(normalize_provider_id(Some(" \t ")), None);
    assert_eq!(normalize_provider_id(Some(" p-1\n")).as_deref(), Some("p-1"));
    assert_eq!(normalize_provider_id(Some("my provider")).as_deref(), Some("my provider"));
}
