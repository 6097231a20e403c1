use scp_script_anthology::crom::{endpoint, user_agent, Abort, Crom, CromError, Phase, Step};
use scp_script_anthology::rate_limit::{
    read_capacity, Capacity, Outcome, ProbeFault, ProbeVerdict, RateLimiter,
    EXHAUSTED_WAIT_SECONDS, OVERLOADED_WAIT_SECONDS, RETRY_DELAY_SECONDS, RETRY_LIMIT,
};
use scp_script_anthology::record::Record;

const PROBE: &str = "query {rateLimit{remaining, resetAt}}";

fn text(s: &str) -> Record {
    Record::Text(s.to_string())
}

fn object(members: Vec<(&str, Record)>) -> Record {
    Record::Object(members.into_iter().map(|(k, v)| (k.to_string(), v)).collect())
}

fn quota(remaining: i128) -> Record {
    object(vec![(
        "data",
        object(vec![("rateLimit", object(vec![("remaining", Record::Whole(remaining)), ("resetAt", text("later"))]))]),
    )])
}

fn errors() -> Record {
    object(vec![("errors", Record::List(vec![text("overloaded")]))])
}

fn answer() -> Record {
    object(vec![("data", object(vec![("pages", object(vec![]))]))])
}

fn post(step: &Step) -> (String, u64) {
    match step {
        Step::Post { query, after_seconds } => (query.clone(), *after_seconds),
        other => panic!("a request was expected, not {:?}", other),
    }
}

#[test]
fn capacity_is_read_from_the_probe() {
    assert_eq!(read_capacity(&quota(5)), Capacity::Available);
    assert_eq!(read_capacity(&quota(0)), Capacity::Exhausted);
    assert_eq!(read_capacity(&errors()), Capacity::Overloaded);
    assert_eq!(read_capacity(&answer()), Capacity::Malformed);
    assert_eq!(read_capacity(&Record::Null), Capacity::Malformed);
    assert_eq!(read_capacity(&quota(-1)), Capacity::Malformed);
    let both = object(vec![
        ("data", object(vec![("rateLimit", object(vec![("remaining", Record::Whole(0))]))])),
        ("errors", Record::List(vec![])),
    ]);
    assert_eq!(read_capacity(&both), Capacity::Exhausted);
    let text_quota = object(vec![
        ("data", object(vec![("rateLimit", object(vec![("remaining", text("3"))]))])),
        ("errors", Record::List(vec![])),
    ]);
    assert_eq!(read_capacity(&text_quota), Capacity::Overloaded);
}

#[test]
fn a_query_begins_with_a_probe() {
    let mut crom = Crom::new(false);
    assert_eq!(crom.phase, Phase::Idle);
    let step = crom.query("query { x }");
    assert_eq!(post(&step), (PROBE.to_string(), 0));
    assert_eq!(crom.phase, Phase::Probing);
    let step = crom.advance(Outcome::Answer(quota(3)));
    assert_eq!(post(&step), ("query { x }".to_string(), 0));
    assert_eq!(crom.phase, Phase::Querying);
    match crom.advance(Outcome::Answer(answer())) {
        Step::Deliver(record) => assert!(record.get("data").is_some()),
        other => panic!("an answer was expected, not {:?}", other),
    }
    assert_eq!(crom.phase, Phase::Idle);
}

#[test]
fn exhausted_quota_gives_one_long_wait() {
    let mut crom = Crom::new(false);
    let mut waits: Vec<u64> = Vec::new();
    let mut step = crom.query("q");
    let mut answers = vec![quota(0), quota(5)].into_iter();
    loop {
        let (query, after) = post(&step);
        waits.push(after);
        if query != PROBE {
            break;
        }
        step = crom.advance(Outcome::Answer(answers.next().unwrap()));
    }
    assert_eq!(waits, vec![0, EXHAUSTED_WAIT_SECONDS, 0]);
    assert_eq!(waits.iter().filter(|w| **w == 300).count(), 1);
    assert_eq!(crom.phase, Phase::Querying);
}

#[test]
fn overloaded_service_gives_a_short_wait() {
    let mut crom = Crom::new(false);
    crom.query("q");
    let step = crom.advance(Outcome::Answer(errors()));
    assert_eq!(post(&step), (PROBE.to_string(), OVERLOADED_WAIT_SECONDS));
    assert_eq!(OVERLOADED_WAIT_SECONDS, 15);
    assert_eq!(crom.phase, Phase::Probing);
}

#[test]
fn probe_without_quota_or_errors_is_fatal() {
    let mut crom = Crom::new(false);
    crom.query("q");
    assert!(matches!(crom.advance(Outcome::Answer(answer())), Step::Abort(Abort::NoRateLimit)));
    assert_eq!(crom.phase, Phase::Idle);
}

#[test]
fn probe_that_is_no_json_is_fatal() {
    let mut crom = Crom::new(false);
    crom.query("q");
    assert!(matches!(crom.advance(Outcome::NotJson), Step::Abort(Abort::ProbeNotJson)));
}

#[test]
fn outcome_without_a_request_is_refused() {
    let mut crom = Crom::new(true);
    assert!(matches!(crom.advance(Outcome::TransportError), Step::Abort(Abort::NothingInFlight)));
    assert!(crom.limiter.verbose);
}

/// Runs a query against a transport whose first `failures` attempts fail, and
/// says how it ended and how many attempts were retried.
fn run(failures: usize) -> (Step, usize) {
    let mut crom = Crom::new(false);
    let mut step = crom.query("q");
    let mut attempts = 0;
    loop {
        let (query, _) = match &step {
            Step::Post { .. } => post(&step),
            _ => return (step, attempts.max(1) - 1),
        };
        if query == PROBE {
            step = crom.advance(Outcome::Answer(quota(9)));
        } else {
            attempts += 1;
            step = if attempts <= failures {
                crom.advance(Outcome::TransportError)
            } else {
                crom.advance(Outcome::Answer(answer()))
            };
        }
    }
}

#[test]
fn four_failures_then_success_takes_four_retries() {
    let (end, retries) = run(4);
    assert!(matches!(end, Step::Deliver(_)));
    assert_eq!(retries, 4);
}

#[test]
fn six_failures_in_a_row_are_fatal() {
    let (end, _) = run(6);
    assert!(matches!(end, Step::Abort(Abort::TooManyFailures)));
}

#[test]
fn the_last_allowed_attempt_may_not_fail() {
    assert_eq!(RETRY_LIMIT, 5);
    let (end, retries) = run(5);
    assert!(matches!(end, Step::Abort(Abort::TooManyFailures)));
    assert_eq!(retries, 4);
}

#[test]
fn every_kind_of_failure_is_retried_after_the_delay() {
    for failure in 0..3 {
        let mut crom = Crom::new(false);
        crom.query("q");
        crom.advance(Outcome::Answer(quota(1)));
        let outcome = match failure {
            0 => Outcome::TransportError,
            1 => Outcome::NotJson,
            _ => Outcome::Answer(errors()),
        };
        let step = crom.advance(outcome);
        assert_eq!(post(&step), (PROBE.to_string(), RETRY_DELAY_SECONDS));
        assert_eq!(crom.attempts.used, 1);
        assert_eq!(crom.limiter.probes.used, 0);
        assert_eq!(crom.phase, Phase::Probing);
    }
}

#[test]
fn failed_probes_are_given_up_too() {
    let mut crom = Crom::new(false);
    crom.query("q");
    for _ in 0..4 {
        let step = crom.advance(Outcome::TransportError);
        assert_eq!(post(&step), (PROBE.to_string(), RETRY_DELAY_SECONDS));
    }
    assert!(matches!(crom.advance(Outcome::TransportError), Step::Abort(Abort::TooManyFailures)));
}

#[test]
fn reported_errors_are_kept_as_text() {
    let error = CromError { errors: "[\"bad query\"]".to_string() };
    assert_eq!(error.message(), "[\"bad query\"]");
}

#[test]
fn the_service_has_one_address() {
    assert_eq!(endpoint(), "https://api.crom.avn.sh/graphql");
    assert_eq!(user_agent(), "ScpScriptAnthology/1.0");
}

#[test]
fn the_keeper_of_the_quota_says_what_follows_a_probe() {
    let mut limiter = RateLimiter::new(false);
    assert_eq!(limiter.await_capacity(&Outcome::Answer(quota(2))), ProbeVerdict::Proceed);
    assert_eq!(
        limiter.await_capacity(&Outcome::Answer(quota(0))),
        ProbeVerdict::Wait { seconds: 300 }
    );
    assert_eq!(
        limiter.await_capacity(&Outcome::Answer(errors())),
        ProbeVerdict::Wait { seconds: 15 }
    );
    assert_eq!(
        limiter.await_capacity(&Outcome::Answer(answer())),
        ProbeVerdict::Fail(ProbeFault::NoRateLimit)
    );
    assert_eq!(limiter.await_capacity(&Outcome::NotJson), ProbeVerdict::Fail(ProbeFault::NotJson));
    for _ in 0..4 {
        assert_eq!(limiter.await_capacity(&Outcome::TransportError), ProbeVerdict::Wait { seconds: 10 });
    }
    assert_eq!(
        limiter.await_capacity(&Outcome::TransportError),
        ProbeVerdict::Fail(ProbeFault::TooManyFailures)
    );
    assert_eq!(limiter.probes.used, 5);
    assert_eq!(limiter.await_capacity(&Outcome::Answer(quota(1))), ProbeVerdict::Proceed);
    assert_eq!(limiter.probes.used, 0);
}
