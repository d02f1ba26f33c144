use helixrack::handler::{HandlerResponse, ParsedRequest, ResponseBody};
use helixrack::rack::{build_env, contain, error_response, port_text, EnvValue};

fn shown(value: &EnvValue<'_>) -> String {
    match value {
        EnvValue::Text(text) => format!("text {text}"),
        EnvValue::Version(major, minor) => format!("version {major}.{minor}"),
        EnvValue::Input(bytes) => format!("input {bytes:?}"),
        EnvValue::Errors => "errors".to_string(),
    }
}

#[test]
fn the_environment_has_every_entry() {
    let request = ParsedRequest {
        method: "POST",
        path: "/a",
        query: "",
        headers: vec![("Host", "h")],
        body: b"\x01\xff",
    };
    let port = port_text(9292);
    let env = build_env(&port, &request);
    let entries: Vec<(&str, String)> = env.iter().map(|(key, value)| (*key, shown(value))).collect();
    assert_eq!(
        entries,
        [
            ("REQUEST_METHOD", "text POST".to_string()),
            ("PATH_INFO", "text /a".to_string()),
            ("QUERY_STRING", "text ".to_string()),
            ("SERVER_NAME", "text 127.0.0.1".to_string()),
            ("SERVER_PORT", "text 9292".to_string()),
            ("SERVER_PROTOCOL", "text HTTP/1.1".to_string()),
            ("rack.version", "version 1.3".to_string()),
            ("rack.input", "input [1, 255]".to_string()),
            ("rack.errors", "errors".to_string()),
            ("rack.url_scheme", "text http".to_string()),
        ]
    );
}

#[test]
fn a_fault_is_answered_with_500_and_a_text() {
    let answer = error_response::<()>();
    assert_eq!(answer.status, 500);
    assert_eq!(
        answer.headers,
        [
            ("Content-Type".to_string(), "text/plain".to_string()),
            ("Content-Length".to_string(), "22".to_string()),
        ]
    );
    match answer.body {
        ResponseBody::InMemory(bytes) => {
            assert_eq!(bytes, b"Internal Server Error\n");
            assert_eq!(bytes.len(), 22);
        }
        ResponseBody::Spooled(_) => panic!("nothing was spooled"),
    }
}

#[test]
fn only_faults_are_replaced() {
    let given = HandlerResponse::<()> {
        status: 204,
        headers: vec![("A".to_string(), "b".to_string())],
        body: ResponseBody::InMemory(Vec::new()),
    };
    let answer = contain(Some(given));
    assert_eq!(answer.status, 204);
    assert_eq!(answer.headers.len(), 1);
    assert_eq!(contain::<()>(None).status, 500);
}
