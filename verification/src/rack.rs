//! Requests and faults as Rack has them.

use vstd::prelude::*;
use vstd::string::*;
use vstd::utf8::*;
use crate::handler;
use crate::handler::{HandlerResponse, ParsedRequest, ResponseBody};
use crate::text;

verus! {

/// A value of the Rack environment.
#[derive(Debug)]
pub enum EnvValue<'req> {
    /// A string.
    Text(&'req str),
    /// Two numbers: the version of the protocol.
    Version(i64, i64),
    /// A stream to read these bytes from.
    Input(&'req [u8]),
    /// The stream for error messages.
    Errors,
}

/// A value of the Rack environment as a plain value.
#[verifier::ext_equal]
pub enum EnvValueView {
    Text(Seq<char>),
    Version(int, int),
    Input(Seq<u8>),
    Errors,
}

impl<'req> View for EnvValue<'req> {
    type V = EnvValueView;

    open spec fn view(&self) -> EnvValueView {
        match self {
            EnvValue::Text(s) => EnvValueView::Text(s@),
            EnvValue::Version(major, minor) => EnvValueView::Version(*major as int, *minor as int),
            EnvValue::Input(bytes) => EnvValueView::Input(bytes@),
            EnvValue::Errors => EnvValueView::Errors,
        }
    }
}

/// The Rack environment of a request to a server on `port`, entry by entry.
pub open spec fn environment(port: Seq<char>, request: handler::RequestView) -> Seq<
    (Seq<char>, EnvValueView),
> {
    seq![
        ("REQUEST_METHOD"@, EnvValueView::Text(request.method)),
        ("PATH_INFO"@, EnvValueView::Text(request.path)),
        ("QUERY_STRING"@, EnvValueView::Text(request.query)),
        ("SERVER_NAME"@, EnvValueView::Text("127.0.0.1"@)),
        ("SERVER_PORT"@, EnvValueView::Text(port)),
        ("SERVER_PROTOCOL"@, EnvValueView::Text("HTTP/1.1"@)),
        ("rack.version"@, EnvValueView::Version(1, 3)),
        ("rack.input"@, EnvValueView::Input(request.body)),
        ("rack.errors"@, EnvValueView::Errors),
        ("rack.url_scheme"@, EnvValueView::Text("http"@)),
    ]
}

/// Entries of the Rack environment as plain values.
pub open spec fn entries(env: Seq<(&'static str, EnvValue<'_>)>) -> Seq<(Seq<char>, EnvValueView)> {
    env.map_values(|entry: (&'static str, EnvValue<'_>)| (entry.0@, entry.1@))
}

/// Builds the Rack environment of a request to a server on `port`.
pub fn build_env<'req>(port: &'req str, request: &ParsedRequest<'req>) -> (env: Vec<
    (&'static str, EnvValue<'req>),
>)
    ensures
        entries(env@) == environment(port@, request@),
{
    let mut env: Vec<(&'static str, EnvValue<'req>)> = Vec::with_capacity(10);
    env.push(("REQUEST_METHOD", EnvValue::Text(request.method)));
    env.push(("PATH_INFO", EnvValue::Text(request.path)));
    env.push(("QUERY_STRING", EnvValue::Text(request.query)));
    env.push(("SERVER_NAME", EnvValue::Text("127.0.0.1")));
    env.push(("SERVER_PORT", EnvValue::Text(port)));
    env.push(("SERVER_PROTOCOL", EnvValue::Text("HTTP/1.1")));
    env.push(("rack.version", EnvValue::Version(1, 3)));
    env.push(("rack.input", EnvValue::Input(request.body)));
    env.push(("rack.errors", EnvValue::Errors));
    env.push(("rack.url_scheme", EnvValue::Text("http")));
    assert(entries(env@) =~= environment(port@, request@));
    env
}

/// The port as the Rack environment has it.
pub fn port_text(port: u16) -> (text: String)
    ensures
        text@ == text::decimal(port as nat),
{
    text::decimal_text(port as u64)
}

/// What a client is told when the application fails.
pub const FAULT_BODY: &'static str = "Internal Server Error\n";

/// The answer when the application fails.
pub open spec fn fault<F>() -> handler::ResponseView<F> {
    handler::ResponseView {
        status: 500,
        headers: seq![
            ("Content-Type"@, "text/plain"@),
            ("Content-Length"@, text::decimal(encode_utf8(FAULT_BODY@).len())),
        ],
        body: handler::BodyView::InMemory(encode_utf8(FAULT_BODY@)),
    }
}

/// The answer when the application fails: status 500 and a plain text.
pub fn error_response<F>() -> (answer: HandlerResponse<F>)
    ensures
        answer@ == fault::<F>(),
{
    let bytes = FAULT_BODY.as_bytes_vec();
    let mut headers: Vec<(String, String)> = Vec::new();
    headers.push(("Content-Type".to_owned(), "text/plain".to_owned()));
    headers.push(("Content-Length".to_owned(), text::decimal_text(bytes.len() as u64)));
    let answer = HandlerResponse { status: 500, headers, body: ResponseBody::InMemory(bytes) };
    assert(answer@.headers =~= fault::<F>().headers);
    answer
}

/// The answer to send, given what came of calling the application: its own, or
/// the one for a failure.
pub fn contain<F>(outcome: Option<HandlerResponse<F>>) -> (answer: HandlerResponse<F>)
    ensures
        answer@ == (match outcome {
            Some(given) => given@,
            None => fault::<F>(),
        }),
{
    match outcome {
        Some(given) => given,
        None => error_response(),
    }
}

/// No entry of the Rack environment takes the place of another: the keys are
/// distinct, whatever the request.
pub proof fn environment_keys_are_distinct(port: Seq<char>, request: handler::RequestView)
    ensures
        forall|i: int, j: int|
            0 <= i < j < environment(port, request).len() ==> (#[trigger] environment(
                port,
                request,
            )[i]).0 != (#[trigger] environment(port, request)[j]).0,
{
    reveal_strlit("REQUEST_METHOD");
    reveal_strlit("PATH_INFO");
    reveal_strlit("QUERY_STRING");
    reveal_strlit("SERVER_NAME");
    reveal_strlit("SERVER_PORT");
    reveal_strlit("SERVER_PROTOCOL");
    reveal_strlit("rack.version");
    reveal_strlit("rack.input");
    reveal_strlit("rack.errors");
    reveal_strlit("rack.url_scheme");
    assert("SERVER_NAME"@[7] != "SERVER_PORT"@[7]);
    assert("SERVER_NAME"@[0] != "rack.errors"@[0]);
    assert("SERVER_PORT"@[0] != "rack.errors"@[0]);
    assert("QUERY_STRING"@[0] != "rack.version"@[0]);
    assert("SERVER_PROTOCOL"@[0] != "rack.url_scheme"@[0]);
    let env = environment(port, request);
    assert(env[0].0.len() == 14);
    assert(env[1].0.len() == 9);
    assert(env[2].0.len() == 12);
    assert(env[3].0.len() == 11);
    assert(env[4].0.len() == 11);
    assert(env[5].0.len() == 15);
    assert(env[6].0.len() == 12);
    assert(env[7].0.len() == 10);
    assert(env[8].0.len() == 11);
    assert(env[9].0.len() == 15);
    assert forall|i: int, j: int| 0 <= i < j < env.len() implies (#[trigger] env[i]).0 != (
    #[trigger] env[j]).0 by {
        assert(i == 0 || i == 1 || i == 2 || i == 3 || i == 4 || i == 5 || i == 6 || i == 7 || i
            == 8);
        assert(j == 1 || j == 2 || j == 3 || j == 4 || j == 5 || j == 6 || j == 7 || j == 8 || j
            == 9);
    }
}

} // verus!
