use task_io::host::{HostHeap, HostObject};
use task_io::http::{
    build_request, client_failure, decode_response, parse_method, query_pairs, request_from_host,
    transport_failure, Dispatch, Event, HttpRequestSpec, Method,
};
use task_io::{DynamicValue, ErrorKind};

fn text(s: &str) -> DynamicValue {
    DynamicValue::String(s.to_string())
}

fn object(members: Vec<(&str, DynamicValue)>) -> DynamicValue {
    DynamicValue::Object(members.into_iter().map(|(k, v)| (k.to_string(), v)).collect())
}

fn pair(k: &str, v: &str) -> (String, String) {
    (k.to_string(), v.to_string())
}

fn request(method: &str, payload: Option<DynamicValue>) -> HttpRequestSpec {
    HttpRequestSpec {
        method: method.to_string(),
        url: "http://example/api".to_string(),
        payload,
        timeout_secs: 5,
    }
}

#[test]
fn get_carries_the_payload_in_the_query() {
    let payload = object(vec![("q", text("test"))]);
    let plan = build_request("GET", "http://example/api", &payload, 5).unwrap();
    assert_eq!(plan.method, Method::Get);
    assert_eq!(plan.url, "http://example/api");
    assert_eq!(plan.query, vec![pair("q", "test")]);
    assert_eq!(plan.body, None);
    assert_eq!(plan.content_type(), None);
    assert_eq!(plan.timeout_secs, 5);
}

#[test]
fn get_request_has_the_query_and_no_body() {
    let payload = object(vec![("q", text("test"))]);
    let plan = build_request("GET", "http://example/api", &payload, 5).unwrap();
    let built = reqwest::Client::new()
        .request(reqwest::Method::GET, plan.url.as_str())
        .query(&plan.query)
        .build()
        .unwrap();
    assert_eq!(built.url().query(), Some("q=test"));
    assert!(built.body().is_none());
}

#[test]
fn post_carries_the_payload_in_the_body() {
    let payload = object(vec![("name", text("x"))]);
    let plan = build_request("POST", "http://example/api", &payload, 5).unwrap();
    assert_eq!(plan.method, Method::Post);
    assert_eq!(plan.body, Some("{\"name\":\"x\"}".to_string()));
    assert_eq!(plan.query, Vec::<(String, String)>::new());
    assert_eq!(plan.content_type(), Some("application/json"));
}

#[test]
fn post_request_has_the_body_and_no_query() {
    let payload = object(vec![("name", text("x"))]);
    let plan = build_request("POST", "http://example/api", &payload, 5).unwrap();
    let built = reqwest::Client::new()
        .request(reqwest::Method::POST, plan.url.as_str())
        .query(&plan.query)
        .header(reqwest::header::CONTENT_TYPE, plan.content_type().unwrap())
        .body(plan.body.clone().unwrap())
        .build()
        .unwrap();
    assert_eq!(built.url().query(), None);
    assert_eq!(built.body().unwrap().as_bytes().unwrap(), "{\"name\":\"x\"}".as_bytes());
    let sent: serde_json::Value =
        serde_json::from_slice(built.body().unwrap().as_bytes().unwrap()).unwrap();
    let mut want = serde_json::Map::new();
    want.insert("name".to_string(), serde_json::Value::from("x"));
    assert_eq!(sent, serde_json::Value::Object(want));
}

#[test]
fn put_and_delete_send_a_body_too() {
    let payload = object(vec![("id", DynamicValue::Number(serde_json::Number::from(7)))]);
    let put = build_request("PUT", "http://example/api", &payload, 1).unwrap();
    assert_eq!(put.method, Method::Put);
    assert_eq!(put.body, Some("{\"id\":7}".to_string()));
    assert!(put.query.is_empty());
    let delete = build_request("DELETE", "http://example/api", &payload, 1).unwrap();
    assert_eq!(delete.method, Method::Delete);
    assert_eq!(delete.body, Some("{\"id\":7}".to_string()));
    assert!(delete.query.is_empty());
}

#[test]
fn patch_is_an_unsupported_method() {
    let payload = object(vec![("q", text("test"))]);
    let e = build_request("PATCH", "http://example/api", &payload, 5).unwrap_err();
    assert_eq!(e.kind, ErrorKind::UnsupportedMethod);
    assert_eq!(e.message, "不支持的方法: PATCH");
}

#[test]
fn unsupported_method_never_reaches_the_transport() {
    let mut call = Dispatch::new(request("PATCH", Some(object(vec![]))));
    assert!(matches!(call, Dispatch::Build(_)));
    call = call.step(Event::Proceed);
    assert!(call.is_over());
    for event in vec![
        Event::Sent,
        Event::Proceed,
        Event::Responded { status: 200, body: Some("ok".to_string()) },
        Event::TransportFailed("late".to_string()),
        Event::ClientFailed("late".to_string()),
    ] {
        call = call.step(event);
        match &call {
            Dispatch::Failed(e) => {
                assert_eq!(e.kind, ErrorKind::UnsupportedMethod);
                assert_eq!(e.message, "不支持的方法: PATCH");
            }
            other => panic!("left the failed state: {:?}", other),
        }
    }
}

#[test]
fn method_names_are_read_in_any_case() {
    assert_eq!(parse_method("get").unwrap(), Method::Get);
    assert_eq!(parse_method("Post").unwrap(), Method::Post);
    assert_eq!(parse_method("pUt").unwrap(), Method::Put);
    assert_eq!(parse_method("dElEtE").unwrap(), Method::Delete);
    assert_eq!(parse_method("DELETE").unwrap(), Method::Delete);
}

#[test]
fn other_method_names_are_refused() {
    for name in vec!["", "HEAD", "OPTIONS", "GET ", " GET", "GETS", "patch"] {
        let e = parse_method(name).unwrap_err();
        assert_eq!(e.kind, ErrorKind::UnsupportedMethod);
        assert_eq!(e.message, format!("不支持的方法: {}", name));
    }
}

#[test]
fn method_names() {
    assert_eq!(Method::Get.name(), "GET");
    assert_eq!(Method::Post.name(), "POST");
    assert_eq!(Method::Put.name(), "PUT");
    assert_eq!(Method::Delete.name(), "DELETE");
    assert_eq!(Method::from_upper("PUT"), Some(Method::Put));
    assert_eq!(Method::from_upper("put"), None);
    assert!(!Method::Get.sends_body());
    assert!(Method::Post.sends_body() && Method::Put.sends_body() && Method::Delete.sends_body());
}

#[test]
fn query_takes_scalars_as_text() {
    let payload = object(vec![
        ("s", text("a b&c")),
        ("t", DynamicValue::Bool(true)),
        ("f", DynamicValue::Bool(false)),
        ("n", DynamicValue::Number(serde_json::Number::from(-5))),
        ("u", DynamicValue::Number(serde_json::Number::from(u64::MAX))),
        ("x", DynamicValue::Number(serde_json::Number::from_f64(1.5).unwrap())),
    ]);
    assert_eq!(
        query_pairs(&payload).unwrap(),
        vec![
            pair("s", "a b&c"),
            pair("t", "true"),
            pair("f", "false"),
            pair("n", "-5"),
            pair("u", "18446744073709551615"),
            pair("x", "1.5"),
        ]
    );
}

#[test]
fn query_of_nothing_is_empty() {
    assert!(query_pairs(&DynamicValue::Null).unwrap().is_empty());
    assert!(query_pairs(&object(vec![])).unwrap().is_empty());
    assert!(query_pairs(&DynamicValue::Array(vec![])).unwrap().is_empty());
}

#[test]
fn query_refuses_nested_and_null_members() {
    let nested = object(vec![("a", text("ok")), ("b", DynamicValue::Array(vec![]))]);
    assert_eq!(query_pairs(&nested).unwrap_err(), "unsupported value");
    let inner = object(vec![("a", object(vec![]))]);
    assert_eq!(query_pairs(&inner).unwrap_err(), "unsupported value");
    let null = object(vec![("a", DynamicValue::Null), ("b", text("ok"))]);
    assert_eq!(query_pairs(&null).unwrap_err(), "unsupported value");
}

#[test]
fn query_refuses_payloads_that_are_no_mapping() {
    assert_eq!(
        query_pairs(&text("q")).unwrap_err(),
        "top-level serializer supports only maps and structs"
    );
    assert_eq!(
        query_pairs(&DynamicValue::Bool(true)).unwrap_err(),
        "top-level serializer supports only maps and structs"
    );
    assert_eq!(
        query_pairs(&DynamicValue::Array(vec![text("q")])).unwrap_err(),
        "unsupported pair"
    );
}

#[test]
fn get_with_a_nested_payload_fails_before_sending() {
    let payload = object(vec![("a", DynamicValue::Array(vec![text("x")]))]);
    let e = build_request("get", "http://example/api", &payload, 5).unwrap_err();
    assert_eq!(e.kind, ErrorKind::Network);
    assert_eq!(e.message, "网络请求失败: builder error: unsupported value");
    let call = Dispatch::new(request("GET", Some(payload))).step(Event::Proceed);
    assert!(matches!(call, Dispatch::Failed(_)));
}

#[test]
fn payload_with_a_repeated_key_is_refused_first() {
    let payload = object(vec![("a", text("1")), ("a", text("2"))]);
    for method in vec!["GET", "POST", "PATCH"] {
        let e = build_request(method, "http://example/api", &payload, 5).unwrap_err();
        assert_eq!(e.kind, ErrorKind::Conversion);
        assert_eq!(e.message, "Payload 转换失败: duplicate key in object");
    }
}

#[test]
fn absent_payload_counts_as_the_empty_object() {
    match Dispatch::new(request("POST", None)).step(Event::Proceed) {
        Dispatch::Send(plan) => {
            assert_eq!(plan.body, Some("{}".to_string()));
            assert!(plan.query.is_empty());
        }
        other => panic!("not ready to send: {:?}", other),
    }
    match Dispatch::new(request("GET", None)).step(Event::Proceed) {
        Dispatch::Send(plan) => {
            assert_eq!(plan.body, None);
            assert!(plan.query.is_empty());
        }
        other => panic!("not ready to send: {:?}", other),
    }
}

#[test]
fn a_call_runs_from_build_to_done() {
    let payload = object(vec![("q", text("test"))]);
    let mut call = Dispatch::new(request("get", Some(payload)));
    assert!(!call.is_over());
    call = call.step(Event::Proceed);
    match &call {
        Dispatch::Send(plan) => {
            assert_eq!(plan.method, Method::Get);
            assert_eq!(plan.query, vec![pair("q", "test")]);
            assert_eq!(plan.timeout_secs, 5);
        }
        other => panic!("not ready to send: {:?}", other),
    }
    call = call.step(Event::Sent);
    assert!(matches!(call, Dispatch::AwaitResponse));
    call = call.step(Event::Responded { status: 404, body: Some("not found".to_string()) });
    assert!(matches!(call, Dispatch::Decode { status: 404, .. }));
    assert!(!call.is_over());
    call = call.step(Event::Proceed);
    match &call {
        Dispatch::Done(result) => {
            assert_eq!(result.status, 404);
            assert_eq!(result.body, "not found");
        }
        other => panic!("not done: {:?}", other),
    }
    assert!(call.is_over());
    call = call.step(Event::TransportFailed("late".to_string()));
    assert!(matches!(call, Dispatch::Done(_)));
}

#[test]
fn reports_out_of_turn_change_nothing() {
    let mut call = Dispatch::new(request("POST", None));
    call = call.step(Event::Sent);
    assert!(matches!(call, Dispatch::Build(_)));
    call = call.step(Event::Responded { status: 200, body: None });
    assert!(matches!(call, Dispatch::Build(_)));
    call = call.step(Event::Proceed);
    assert!(matches!(call, Dispatch::Send(_)));
    call = call.step(Event::Proceed);
    assert!(matches!(call, Dispatch::Send(_)));
    call = call.step(Event::Sent).step(Event::Sent).step(Event::Proceed);
    assert!(matches!(call, Dispatch::AwaitResponse));
}

#[test]
fn undecodable_body_counts_as_empty() {
    let result = decode_response(500, None);
    assert_eq!(result.status, 500);
    assert_eq!(result.body, "");
    let result = decode_response(200, Some("<html>".to_string()));
    assert_eq!(result.status, 200);
    assert_eq!(result.body, "<html>");
    let call = Dispatch::new(request("PUT", None))
        .step(Event::Proceed)
        .step(Event::Sent)
        .step(Event::Responded { status: 65535, body: None })
        .step(Event::Proceed);
    match call {
        Dispatch::Done(result) => {
            assert_eq!(result.status, 65535);
            assert_eq!(result.body, "");
        }
        other => panic!("not done: {:?}", other),
    }
}

#[test]
fn transport_faults_are_network_failures() {
    let e = transport_failure("operation timed out");
    assert_eq!(e.kind, ErrorKind::Network);
    assert_eq!(e.message, "网络请求失败: operation timed out");
    let e = client_failure("no TLS backend");
    assert_eq!(e.kind, ErrorKind::Network);
    assert_eq!(e.message, "构建 Client 失败: no TLS backend");
    let waiting = Dispatch::new(request("GET", None)).step(Event::Proceed).step(Event::Sent);
    match waiting.step(Event::TransportFailed("operation timed out".to_string())) {
        Dispatch::Failed(e) => {
            assert_eq!(e.kind, ErrorKind::Network);
            assert_eq!(e.message, "网络请求失败: operation timed out");
        }
        other => panic!("not failed: {:?}", other),
    }
    let ready = Dispatch::new(request("GET", None)).step(Event::Proceed);
    match ready.step(Event::ClientFailed("no TLS backend".to_string())) {
        Dispatch::Failed(e) => {
            assert_eq!(e.kind, ErrorKind::Network);
            assert_eq!(e.message, "构建 Client 失败: no TLS backend");
        }
        other => panic!("not failed: {:?}", other),
    }
    let ready = Dispatch::new(request("GET", None)).step(Event::Proceed);
    match ready.step(Event::TransportFailed("connection refused".to_string())) {
        Dispatch::Failed(e) => assert_eq!(e.message, "网络请求失败: connection refused"),
        other => panic!("not failed: {:?}", other),
    }
}

#[test]
fn host_payload_becomes_the_request() {
    let heap = HostHeap {
        objects: vec![
            HostObject::Str("q".to_string()),
            HostObject::Str("test".to_string()),
            HostObject::Dict(vec![(0, 1)]),
        ],
    };
    let spec = request_from_host("GET".to_string(), "http://example/api".to_string(), &heap, 2, 9)
        .unwrap();
    assert_eq!(spec.method, "GET");
    assert_eq!(spec.url, "http://example/api");
    assert_eq!(spec.timeout_secs, 9);
    assert_eq!(spec.payload, Some(object(vec![("q", text("test"))])));
}

#[test]
fn host_payload_without_a_json_form_ends_the_call() {
    let heap = HostHeap { objects: vec![HostObject::List(vec![1]), HostObject::Other] };
    let e = request_from_host("PATCH".to_string(), "http://example/api".to_string(), &heap, 0, 9)
        .unwrap_err();
    assert_eq!(e.kind, ErrorKind::Conversion);
    assert_eq!(e.message, "Payload 转换失败: unsupported type");
}
