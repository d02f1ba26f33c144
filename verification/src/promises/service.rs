//! What holds of the service around the connections: what the application is told,
//! what the server is set to, and what it counts, accepts, collects and watches.

use vstd::prelude::*;
use vstd::utf8::*;
use crate::config;
use crate::config::{ConfigError, ServeConfig};
use crate::counter::{ConnectionCounter, Drain};
use crate::handler;
use crate::handler::{HandlerResponse, ParsedRequest, ResponseBody};
use crate::io_backend;
use crate::io_backend::{IoBackend, Probe};
use crate::rack;
use crate::rack::EnvValue;
use crate::server;
use crate::server::{AcceptStep, Supervision, Terms};
use crate::spool::{BodyAccumulator, BodyReader, SpoolStep};
use crate::text;
use crate::watchdog::{Watch, WatchStep, Watchdog, Watcher};

verus! {

// ---- The Rack environment ----

/// Entry `i` is the only one under `key`.
pub open spec fn only_under(env: Seq<(&'static str, EnvValue<'_>)>, key: Seq<char>, i: int) -> bool {
    &&& 0 <= i < env.len()
    &&& env[i].0@ == key
    &&& forall|j: int| 0 <= j < env.len() && j != i ==> (#[trigger] env[j]).0@ != key
}

/// Looking up `key` gives the string `s`.
pub open spec fn gives_text(
    env: Seq<(&'static str, EnvValue<'_>)>,
    key: Seq<char>,
    s: Seq<char>,
) -> bool {
    exists|i: int|
        #[trigger] only_under(env, key, i) && (env[i].1 matches EnvValue::Text(t) && t@ == s)
}

/// Looking up `key` gives a stream of `bytes`.
pub open spec fn gives_input(
    env: Seq<(&'static str, EnvValue<'_>)>,
    key: Seq<char>,
    bytes: Seq<u8>,
) -> bool {
    exists|i: int|
        #[trigger] only_under(env, key, i) && (env[i].1 matches EnvValue::Input(input) && input@
            == bytes)
}

/// Looking up `key` gives a version of two numbers.
pub open spec fn gives_version(
    env: Seq<(&'static str, EnvValue<'_>)>,
    key: Seq<char>,
    major: i64,
    minor: i64,
) -> bool {
    exists|i: int|
        #[trigger] only_under(env, key, i) && env[i].1 == EnvValue::Version(major, minor)
}

/// Looking up `key` gives the stream for errors.
pub open spec fn gives_errors(env: Seq<(&'static str, EnvValue<'_>)>, key: Seq<char>) -> bool {
    exists|i: int| #[trigger] only_under(env, key, i) && env[i].1 is Errors
}

proof fn lemma_only_under(
    port: Seq<char>,
    request: handler::RequestView,
    env: Seq<(&'static str, EnvValue<'_>)>,
    i: int,
)
    requires
        rack::entries(env) == rack::environment(port, request),
        0 <= i < env.len(),
    ensures
        env.len() == rack::environment(port, request).len(),
        only_under(env, rack::environment(port, request)[i].0, i),
        env[i].1@ == rack::environment(port, request)[i].1,
        forall|k: int| #[trigger]
            only_under(env, rack::environment(port, request)[i].0, k) ==> k == i,
{
    let all = rack::environment(port, request);
    rack::environment_keys_are_distinct(port, request);
    assert(rack::entries(env).len() == env.len());
    assert(rack::entries(env)[i] == (env[i].0@, env[i].1@));
    assert forall|j: int| 0 <= j < env.len() && j != i implies (#[trigger] env[j]).0@
        != all[i].0 by {
        assert(rack::entries(env)[j] == (env[j].0@, env[j].1@));
        assert(all[j].0 != all[i].0);
    }
}

proof fn lemma_text_under(
    port: Seq<char>,
    request: handler::RequestView,
    env: Seq<(&'static str, EnvValue<'_>)>,
    i: int,
    s: Seq<char>,
)
    requires
        rack::entries(env) == rack::environment(port, request),
        0 <= i < env.len(),
        rack::environment(port, request)[i].1 is Text,
    ensures
        gives_text(env, rack::environment(port, request)[i].0, s)
            <==> rack::environment(port, request)[i].1->Text_0 == s,
{
    lemma_only_under(port, request, env, i);
    assert(env[i].1 is Text);
}

/// A request can be told from its environment. Looking up the method, the path, the
/// query string, the body and the port gives those of the request and of the server,
/// and nothing else; and the other entries are the same for every request.
pub proof fn requests_can_be_told_from_their_environments<'req>(
    port: &'req str,
    request: &ParsedRequest<'req>,
    env: Vec<(&'static str, EnvValue<'req>)>,
    s: Seq<char>,
    bytes: Seq<u8>,
)
    requires
        call_ensures(rack::build_env, (port, request), env),
    ensures
        env@.len() == 10,
        gives_text(env@, "REQUEST_METHOD"@, s) <==> s == request.method@,
        gives_text(env@, "PATH_INFO"@, s) <==> s == request.path@,
        gives_text(env@, "QUERY_STRING"@, s) <==> s == request.query@,
        gives_input(env@, "rack.input"@, bytes) <==> bytes == request.body@,
        gives_text(env@, "SERVER_NAME"@, s) <==> s == "127.0.0.1"@,
        gives_text(env@, "SERVER_PORT"@, s) <==> s == port@,
        gives_text(env@, "SERVER_PROTOCOL"@, s) <==> s == "HTTP/1.1"@,
        gives_version(env@, "rack.version"@, 1, 3),
        gives_errors(env@, "rack.errors"@),
        gives_text(env@, "rack.url_scheme"@, s) <==> s == "http"@,
{
    let all = rack::environment(port@, request@);
    assert(rack::entries(env@).len() == env@.len());
    assert(all.len() == 10);
    lemma_text_under(port@, request@, env@, 0, s);
    lemma_text_under(port@, request@, env@, 1, s);
    lemma_text_under(port@, request@, env@, 2, s);
    lemma_text_under(port@, request@, env@, 3, s);
    lemma_text_under(port@, request@, env@, 4, s);
    lemma_text_under(port@, request@, env@, 5, s);
    lemma_only_under(port@, request@, env@, 6);
    assert(env@[6].1@ == rack::EnvValueView::Version(1, 3));
    lemma_only_under(port@, request@, env@, 7);
    assert(env@[7].1@ == rack::EnvValueView::Input(request.body@));
    lemma_only_under(port@, request@, env@, 8);
    assert(env@[8].1@ == rack::EnvValueView::Errors);
    lemma_text_under(port@, request@, env@, 9, s);
}

/// Two requests that differ in method, path, query or body have environments that
/// differ.
pub proof fn different_requests_have_different_environments<'req>(
    port: &'req str,
    request: &ParsedRequest<'req>,
    env: Vec<(&'static str, EnvValue<'req>)>,
    other: &ParsedRequest<'req>,
    other_env: Vec<(&'static str, EnvValue<'req>)>,
)
    requires
        call_ensures(rack::build_env, (port, request), env),
        call_ensures(rack::build_env, (port, other), other_env),
        env@ == other_env@,
    ensures
        request.method@ == other.method@,
        request.path@ == other.path@,
        request.query@ == other.query@,
        request.body@ == other.body@,
{
    requests_can_be_told_from_their_environments(
        port,
        request,
        env,
        request.method@,
        request.body@,
    );
    requests_can_be_told_from_their_environments(port, request, env, request.path@, request.body@);
    requests_can_be_told_from_their_environments(port, request, env, request.query@, request.body@);
    requests_can_be_told_from_their_environments(
        port,
        other,
        other_env,
        request.method@,
        request.body@,
    );
    requests_can_be_told_from_their_environments(
        port,
        other,
        other_env,
        request.path@,
        request.body@,
    );
    requests_can_be_told_from_their_environments(
        port,
        other,
        other_env,
        request.query@,
        request.body@,
    );
}

/// The port is told in decimal.
pub proof fn ports_are_told_in_decimal(port: u16, told: String, digits: String)
    requires
        call_ensures(rack::port_text, (port,), told),
        call_ensures(text::decimal_text, (port as u64,), digits),
    ensures
        told@ == digits@,
{
}

/// What the application answers is what is sent. Where it fails, status 500 is sent
/// instead, with a plain text for a body and the length of that text.
pub proof fn failures_are_answered<F>(
    outcome: Option<HandlerResponse<F>>,
    answer: HandlerResponse<F>,
    fault: HandlerResponse<F>,
)
    requires
        call_ensures(rack::contain::<F>, (outcome,), answer),
        call_ensures(rack::error_response::<F>, (), fault),
    ensures
        outcome matches Some(given) ==> answer@ == given@,
        outcome is None ==> answer@ == fault@,
        fault.status == 500,
        fault.headers@.len() == 2,
        fault.headers@[0].0@ == "Content-Type"@ && fault.headers@[0].1@ == "text/plain"@,
        fault.headers@[1].0@ == "Content-Length"@,
        fault.body matches ResponseBody::InMemory(bytes) && bytes@ == encode_utf8(
            "Internal Server Error\n"@,
        ) && fault.headers@[1].1@ == text::decimal(bytes@.len()),
{
    let all = fault@.headers;
    assert(all.len() == fault.headers@.len());
    assert(all[0] == (fault.headers@[0].0@, fault.headers@[0].1@));
    assert(all[1] == (fault.headers@[1].0@, fault.headers@[1].1@));
}

// ---- The settings ----

/// Settings are accepted exactly where each is in its range, and are then what was
/// asked for. Otherwise the first that is not decides, in the order port, timeout,
/// limit, time slice, and is named with its value.
pub proof fn settings_are_judged_one_by_one(
    port: i64,
    timeout: i64,
    limit: i64,
    slice: i64,
    config: Result<ServeConfig, ConfigError>,
)
    requires
        call_ensures(ServeConfig::check, (port, timeout, limit, slice), config),
    ensures
        ({
            let port_fits = 0 <= port <= 65535;
            let limit_fits = 1 <= limit <= usize::MAX;
            &&& config is Ok <==> port_fits && timeout >= 0 && limit_fits && slice >= 0
            &&& config matches Ok(set) ==> {
                &&& set.port == port
                &&& set.keep_alive_timeout_seconds == timeout
                &&& set.max_keepalive == limit
                &&& set.cpu_time_slice_ms == slice
            }
            &&& !port_fits ==> config == Err::<ServeConfig, ConfigError>(ConfigError::Port(port))
            &&& port_fits && timeout < 0 ==> config == Err::<ServeConfig, ConfigError>(
                ConfigError::KeepAliveTimeout(timeout),
            )
            &&& port_fits && timeout >= 0 && limit == 0 ==> config == Err::<
                ServeConfig,
                ConfigError,
            >(ConfigError::ZeroMaxKeepalive)
            &&& port_fits && timeout >= 0 && !limit_fits && limit != 0 ==> config == Err::<
                ServeConfig,
                ConfigError,
            >(ConfigError::MaxKeepalive(limit))
            &&& port_fits && timeout >= 0 && limit_fits && slice < 0 ==> config == Err::<
                ServeConfig,
                ConfigError,
            >(ConfigError::CpuTimeSlice(slice))
        }),
{
}

/// A grace period is as many thousands of milliseconds as it was given seconds, as far
/// as there is room; a negative one is refused with its value; and none is 30000.
pub proof fn grace_periods_are_in_milliseconds(
    seconds: Option<i64>,
    period: Result<u64, ConfigError>,
)
    requires
        call_ensures(config::check_grace_period, (seconds,), period),
    ensures
        seconds is None ==> period == Ok::<u64, ConfigError>(30000),
        seconds matches Some(given) ==> {
            &&& given < 0 ==> period == Err::<u64, ConfigError>(ConfigError::GracePeriod(given))
            &&& given >= 0 ==> period is Ok && (period->Ok_0 == 1000 * given || (period->Ok_0
                == u64::MAX && 1000 * given > u64::MAX))
        },
{
}

/// A complaint names the setting and, in decimal, the value that was refused.
pub proof fn complaints_name_what_is_wrong(
    error: &ConfigError,
    message: String,
    given: i64,
    number: String,
)
    requires
        call_ensures(ConfigError::message, (error,), message),
        call_ensures(text::signed_decimal_text, (given,), number),
    ensures
        *error == ConfigError::Port(given) ==> message@ == "port "@ + number@
            + " is not a valid TCP port (0-65535)"@,
        *error == ConfigError::KeepAliveTimeout(given) ==> message@ == "keep_alive_timeout "@
            + number@ + " must not be negative"@,
        *error == ConfigError::MaxKeepalive(given) ==> message@ == "max_keepalive "@ + number@
            + " must not be negative"@,
        *error == ConfigError::CpuTimeSlice(given) ==> message@ == "cpu_time_slice "@ + number@
            + " must not be negative"@,
        *error == ConfigError::GracePeriod(given) ==> message@ == "grace_period "@ + number@
            + " must not be negative"@,
        *error == ConfigError::ZeroMaxKeepalive ==> message@
            == "max_keepalive must be at least 1 (0 has no coherent meaning: a connection always answers the request it already read off the wire before this limit is checked)"@,
{
}

// ---- The kernel ----

/// A ring that could be set up shows the one interface, and any failure the other. A
/// failure is inconclusive for the three error numbers that stand for want of
/// descriptors or memory, and for no other. Its number is kept.
pub proof fn attempts_are_judged_by_their_outcome(
    attempt: Result<(), Option<i32>>,
    probe: Probe,
    code: Option<i32>,
    exhausted: bool,
    name: &str,
)
    requires
        call_ensures(io_backend::judge, (attempt,), probe),
        call_ensures(io_backend::is_resource_exhaustion, (code,), exhausted),
        call_ensures(IoBackend::as_str, (probe.backend,), name),
    ensures
        exhausted <==> (code matches Some(number) && (number == 24 || number == 23 || number
            == 12)),
        attempt is Ok <==> name@ == "io_uring"@,
        attempt is Err <==> name@ == "epoll"@,
        attempt is Ok ==> !probe.inconclusive && probe.error is None,
        attempt matches Err(error) ==> {
            &&& probe.error == error
            &&& probe.inconclusive <==> (error matches Some(number) && (number == 24 || number
                == 23 || number == 12))
        },
{
    reveal_strlit("io_uring");
    reveal_strlit("epoll");
    assert("io_uring"@.len() == 8 && "epoll"@.len() == 5);
}

/// What the kernel is found to offer rests on one attempt to set up a ring of one
/// entry: the ring, where that succeeds, and the other interface where it fails.
pub proof fn one_small_ring_is_asked_for(probe: Probe, backend: IoBackend)
    requires
        call_ensures(io_backend::examine, (), probe),
        call_ensures(io_backend::probe, (), backend),
    ensures
        exists|attempt: Result<(), Option<i32>>| #[trigger]
            io_backend::may_come_to(1, attempt) && (probe.backend == IoBackend::IoUring
                <==> attempt is Ok) && (attempt matches Err(error) ==> probe.error == error),
        exists|attempt: Result<(), Option<i32>>| #[trigger]
            io_backend::may_come_to(1, attempt) && (backend == IoBackend::IoUring
                <==> attempt is Ok),
        probe.backend == IoBackend::IoUring ==> !probe.inconclusive && probe.error is None,
        probe.backend == IoBackend::Epoll ==> (probe.inconclusive <==> (
        probe.error matches Some(number) && (number == 24 || number == 23 || number == 12))),
{
    let attempt = choose|attempt: Result<(), Option<i32>>| #[trigger]
        io_backend::may_come_to(1, attempt) && probe == io_backend::judged(attempt);
    let other = choose|attempt: Result<(), Option<i32>>| #[trigger]
        io_backend::may_come_to(1, attempt) && backend == io_backend::judged(attempt).backend;
    assert(io_backend::may_come_to(1, attempt) && io_backend::may_come_to(1, other));
}

// ---- The counts ----

/// Counts start at zero, are told as they are, and each operation changes the one that
/// it is about by one and leaves the other alone.
pub proof fn counts_change_by_one(
    fresh: ConnectionCounter,
    usual: ConnectionCounter,
    looked_at: &ConnectionCounter,
    accepted: usize,
    in_flight: usize,
    accepting: &mut ConnectionCounter,
    starting: &mut ConnectionCounter,
    finishing: &mut ConnectionCounter,
)
    requires
        call_ensures(ConnectionCounter::new, (), fresh),
        call_ensures(<ConnectionCounter as Default>::default, (), usual),
        call_ensures(ConnectionCounter::accepted, (looked_at,), accepted),
        call_ensures(ConnectionCounter::in_flight, (looked_at,), in_flight),
        call_ensures(ConnectionCounter::record_accept, (accepting,), ()),
        call_ensures(ConnectionCounter::record_request_start, (starting,), ()),
        call_ensures(ConnectionCounter::record_request_finish, (finishing,), ()),
    ensures
        fresh@.accepted == 0 && fresh@.in_flight == 0,
        usual@ == fresh@,
        accepted == looked_at@.accepted && in_flight == looked_at@.in_flight,
        old(accepting)@.accepted < usize::MAX ==> final(accepting)@.accepted
            == old(accepting)@.accepted + 1,
        old(accepting)@.accepted == usize::MAX ==> final(accepting)@.accepted == 0,
        final(accepting)@.in_flight == old(accepting)@.in_flight,
        old(starting)@.in_flight < usize::MAX ==> final(starting)@.in_flight
            == old(starting)@.in_flight + 1,
        final(starting)@.accepted == old(starting)@.accepted,
        old(finishing)@.in_flight > 0 ==> final(finishing)@.in_flight
            == old(finishing)@.in_flight - 1,
        final(finishing)@.accepted == old(finishing)@.accepted,
{
}

/// A request that starts and then finishes leaves the counts as they were.
pub proof fn a_finished_request_leaves_no_trace(
    starting: &mut ConnectionCounter,
    finishing: &mut ConnectionCounter,
)
    requires
        call_ensures(ConnectionCounter::record_request_start, (starting,), ()),
        call_ensures(ConnectionCounter::record_request_finish, (finishing,), ()),
        old(finishing)@ == final(starting)@,
    ensures
        final(finishing)@ == old(starting)@,
{
}

/// Bringing the count up to date with a connection adds one where it has taken up a
/// request, takes one off where it is done with one, and does nothing otherwise.
pub proof fn adjustments_are_right(counts: &mut ConnectionCounter, before: bool, after: bool)
    requires
        call_ensures(ConnectionCounter::adjust, (counts, before, after), ()),
    ensures
        final(counts)@.accepted == old(counts)@.accepted,
        before == after ==> final(counts)@.in_flight == old(counts)@.in_flight,
        !before && after && old(counts)@.in_flight < usize::MAX ==> final(counts)@.in_flight
            == old(counts)@.in_flight + 1,
        before && !after && old(counts)@.in_flight > 0 ==> final(counts)@.in_flight
            == old(counts)@.in_flight - 1,
{
}

/// A shutdown is over when nothing is in flight, whatever the time; it gives up when
/// something is and the whole grace period has been waited; and it waits otherwise.
pub proof fn shutdowns_wait_for_the_grace_period(
    counts: &ConnectionCounter,
    waited: u64,
    grace_period: u64,
    step: Drain,
)
    requires
        call_ensures(ConnectionCounter::drain, (counts, waited, grace_period), step),
    ensures
        step == Drain::Drained <==> counts@.in_flight == 0,
        step == Drain::Wait <==> counts@.in_flight > 0 && waited < grace_period,
        step == Drain::Expired <==> counts@.in_flight > 0 && grace_period <= waited,
{
}

// ---- The server ----

/// A connection that was accepted is counted and served on the terms that there are; a
/// failure changes no count and is followed by a pause of 10 milliseconds.
pub proof fn every_connection_is_served_on_the_same_terms<S>(
    attempt: Option<S>,
    terms: Terms,
    counts: &mut ConnectionCounter,
    step: AcceptStep<S>,
)
    requires
        call_ensures(server::accept::<S>, (attempt, terms, counts), step),
    ensures
        attempt matches Some(socket) ==> {
            &&& step == AcceptStep::Serve(socket, terms)
            &&& old(counts)@.accepted < usize::MAX ==> final(counts)@.accepted
                == old(counts)@.accepted + 1
            &&& final(counts)@.in_flight == old(counts)@.in_flight
        },
        attempt is None ==> step == AcceptStep::<S>::BackOff(10) && final(counts)@
            == old(counts)@,
{
}

/// A server that is not to stop goes on serving. One that is to stop lingers as long
/// as something is in flight and the grace period lasts, and then stops. It looks again
/// every 20 milliseconds.
pub proof fn a_server_lingers_while_it_may(
    cancelled: bool,
    lingered: u64,
    grace_period: u64,
    counts: &ConnectionCounter,
    supervision: Supervision,
)
    requires
        call_ensures(
            server::supervise,
            (cancelled, lingered, grace_period, counts),
            supervision,
        ),
    ensures
        supervision == Supervision::Serve(20) <==> !cancelled,
        supervision == Supervision::Linger(20) <==> cancelled && counts@.in_flight > 0 && lingered
            < grace_period,
        supervision == Supervision::Stop <==> cancelled && (counts@.in_flight == 0 || grace_period
            <= lingered),
{
}

// ---- Bodies that come in chunks ----

/// What has come in of a body, as far as it is in memory.
pub open spec fn in_memory<F>(body: handler::BodyView<F>, bytes: Seq<u8>) -> bool {
    body matches handler::BodyView::InMemory(kept) && kept == bytes
}

/// A chunk is added to what is in memory as long as that comes to no more than 1048576
/// bytes; with more, all is to be written to a new file; and once there is a file, each
/// chunk is to be written to it. What is not added changes nothing yet.
pub proof fn chunks_stay_in_memory_up_to_the_threshold<F>(
    body: &mut BodyAccumulator<F>,
    chunk: &[u8],
    step: SpoolStep,
)
    requires
        call_ensures(BodyAccumulator::<F>::spool_chunk, (body, chunk), step),
    ensures
        *old(body) matches BodyAccumulator::InMemory(kept) ==> {
            &&& kept@.len() + chunk@.len() <= 1048576 ==> step == SpoolStep::Buffered && (
            *final(body) matches BodyAccumulator::InMemory(bytes) && bytes@ == kept@ + chunk@)
            &&& kept@.len() + chunk@.len() > 1048576 ==> step == SpoolStep::Spill && (
            *final(body) matches BodyAccumulator::InMemory(bytes) && bytes@ == kept@)
        },
        *old(body) matches BodyAccumulator::Spooled(file) ==> step == SpoolStep::Append && (
        *final(body) matches BodyAccumulator::Spooled(same) && same == file),
{
}

/// What is in memory and the file are handed out as they are, and a file that the
/// contents have gone to takes their place.
pub proof fn what_has_come_in_is_handed_out<F>(
    body: &BodyAccumulator<F>,
    bytes: &[u8],
    file: Option<&F>,
    spilling: &mut BodyAccumulator<F>,
    target: F,
)
    requires
        call_ensures(BodyAccumulator::<F>::buffered, (body,), bytes),
        call_ensures(BodyAccumulator::<F>::file, (body,), file),
        call_ensures(BodyAccumulator::<F>::spilled, (spilling, target), ()),
    ensures
        *body matches BodyAccumulator::InMemory(kept) ==> bytes@ == kept@ && file is None,
        *body matches BodyAccumulator::Spooled(held) ==> bytes@.len() == 0 && file == Some(&held),
        *final(spilling) matches BodyAccumulator::Spooled(held) && held == target,
{
}

/// A reader begins with nothing, unless it is reading already: then it refuses, and
/// what it has stays.
pub proof fn readings_begin_with_nothing<F>(
    fresh: BodyReader<F>,
    looked_at: &BodyReader<F>,
    reading: bool,
    beginning: &mut BodyReader<F>,
    begun: Result<(), &'static str>,
)
    requires
        call_ensures(BodyReader::<F>::new, (), fresh),
        call_ensures(BodyReader::<F>::reading, (looked_at,), reading),
        call_ensures(BodyReader::<F>::begin, (beginning,), begun),
    ensures
        !fresh@.reading && in_memory(fresh@.body, Seq::empty()),
        reading == looked_at@.reading,
        old(beginning)@.reading ==> final(beginning)@ == old(beginning)@ && begun is Err
            && begun->Err_0@
            == "HelixRack: a Rack response body's #each triggered another request body read on the same thread before the first one finished -- refusing rather than silently corrupting either body"@,
        !old(beginning)@.reading ==> begun is Ok && final(beginning)@.reading && in_memory(
            final(beginning)@.body,
            Seq::empty(),
        ),
{
}

/// A reader takes in each chunk as [`chunks_stay_in_memory_up_to_the_threshold`] says,
/// refuses one that is missing, and goes on reading either way.
pub proof fn readers_collect_every_chunk<F>(
    reader: &mut BodyReader<F>,
    chunk: Option<&[u8]>,
    step: Result<SpoolStep, &'static str>,
    spilling: &mut BodyReader<F>,
    target: F,
    looked_at: &BodyReader<F>,
    bytes: &[u8],
    file: Option<&F>,
)
    requires
        call_ensures(BodyReader::<F>::collect_chunk, (reader, chunk), step),
        call_ensures(BodyReader::<F>::spilled, (spilling, target), ()),
        call_ensures(BodyReader::<F>::buffered, (looked_at,), bytes),
        call_ensures(BodyReader::<F>::file, (looked_at,), file),
    ensures
        final(reader)@.reading == old(reader)@.reading,
        chunk is None ==> final(reader)@ == old(reader)@ && step is Err && step->Err_0@
            == "Rack body#each yielded with no argument"@,
        chunk matches Some(given) ==> match old(reader)@.body {
            handler::BodyView::InMemory(kept) => {
                &&& kept.len() + given@.len() <= 1048576 ==> step == Ok::<
                    SpoolStep,
                    &'static str,
                >(SpoolStep::Buffered) && in_memory(final(reader)@.body, kept + given@)
                &&& kept.len() + given@.len() > 1048576 ==> step == Ok::<SpoolStep, &'static str>(
                    SpoolStep::Spill,
                ) && in_memory(final(reader)@.body, kept)
            },
            handler::BodyView::Spooled(_) => step == Ok::<SpoolStep, &'static str>(
                SpoolStep::Append,
            ) && final(reader)@ == old(reader)@,
        },
        final(spilling)@.reading == old(spilling)@.reading,
        final(spilling)@.body == handler::BodyView::Spooled(target),
        match looked_at@.body {
            handler::BodyView::InMemory(kept) => bytes@ == kept && file is None,
            handler::BodyView::Spooled(held) => bytes@.len() == 0 && file == Some(&held),
        },
{
}

/// A reading that is concluded hands over what has come in, or the error that stopped
/// it; the reader is then free, and holds nothing of what it read.
pub proof fn concluded_readings_leave_nothing<F, E>(
    concluding: &mut BodyReader<F>,
    outcome: Result<(), E>,
    body: Result<ResponseBody<F>, E>,
    finishing: &mut BodyReader<F>,
    finished: ResponseBody<F>,
    abandoning: &mut BodyReader<F>,
)
    requires
        call_ensures(BodyReader::<F>::conclude::<E>, (concluding, outcome), body),
        call_ensures(BodyReader::<F>::finish, (finishing,), finished),
        call_ensures(BodyReader::<F>::abandon, (abandoning,), ()),
    ensures
        outcome is Ok ==> body is Ok && match old(concluding)@.body {
            handler::BodyView::InMemory(kept) => body->Ok_0 matches ResponseBody::InMemory(bytes)
                && bytes@ == kept,
            handler::BodyView::Spooled(held) => body->Ok_0 matches ResponseBody::Spooled(file)
                && file == held,
        },
        outcome matches Err(error) ==> body == Err::<ResponseBody<F>, E>(error),
        match old(finishing)@.body {
            handler::BodyView::InMemory(kept) => finished matches ResponseBody::InMemory(bytes)
                && bytes@ == kept,
            handler::BodyView::Spooled(held) => finished matches ResponseBody::Spooled(file)
                && file == held,
        },
        !final(concluding)@.reading && in_memory(final(concluding)@.body, Seq::empty()),
        !final(finishing)@.reading && in_memory(final(finishing)@.body, Seq::empty()),
        !final(abandoning)@.reading && in_memory(final(abandoning)@.body, Seq::empty()),
{
}

// ---- The watch ----

/// A watch starts with nothing to do. Arming it sets its deadline to the end of the
/// slice, so many millions of nanoseconds from now as it has milliseconds; disarming
/// it leaves nothing to watch; and both begin a new generation. Ending it does not.
pub proof fn watches_are_set_to_the_end_of_the_slice(
    fresh: Watchdog,
    arming: &mut Watchdog,
    now: u64,
    slice_ms: u64,
    disarming: &mut Watchdog,
    ending: &mut Watchdog,
)
    requires
        call_ensures(Watchdog::new, (), fresh),
        call_ensures(Watchdog::arm, (arming, now, slice_ms), ()),
        old(arming).generation < u64::MAX,
        call_ensures(Watchdog::disarm, (disarming,), ()),
        old(disarming).generation < u64::MAX,
        call_ensures(Watchdog::shutdown, (ending,), ()),
    ensures
        fresh.watch is Idle,
        final(arming).watch matches Watch::Armed(deadline) && deadline == now + slice_ms * 1000000,
        final(arming).generation == old(arming).generation + 1,
        final(disarming).watch is Idle,
        final(disarming).generation == old(disarming).generation + 1,
        final(ending).watch is Shutdown,
        final(ending).generation == old(ending).generation,
{
    assert(now + slice_ms * 1000000 <= u128::MAX) by (nonlinear_arith)
        requires
            now <= u64::MAX,
            slice_ms <= u64::MAX,
    ;
}

/// The watching thread ends when the watch has ended, and sleeps while there is nothing
/// to watch or it has fired already. Otherwise it sleeps up to the deadline and not a
/// nanosecond longer, and fires at the deadline or behind it. It remembers what it has
/// fired for, and forgets nothing else.
pub proof fn watchers_sleep_up_to_the_deadline(
    fresh: Watcher,
    watcher: &mut Watcher,
    shared: &Watchdog,
    now: u64,
    step: WatchStep,
)
    requires
        call_ensures(Watcher::new, (), fresh),
        call_ensures(Watcher::step, (watcher, shared, now), step),
    ensures
        fresh.fired is None,
        step == WatchStep::Exit <==> shared.watch is Shutdown,
        shared.watch is Idle ==> step == WatchStep::Sleep,
        shared.watch matches Watch::Armed(deadline) ==> {
            &&& old(watcher).fired == Some(shared.generation) ==> step == WatchStep::Sleep
            &&& old(watcher).fired != Some(shared.generation) && deadline <= now ==> step
                == WatchStep::Fire
            &&& old(watcher).fired != Some(shared.generation) && now < deadline ==> (
            step matches WatchStep::SleepFor(time) && now + time == deadline)
        },
        step == WatchStep::Fire ==> final(watcher).fired == Some(shared.generation),
        step != WatchStep::Fire ==> *final(watcher) == *old(watcher),
{
}

} // verus!
