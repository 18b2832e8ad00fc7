use solar_metrics::fetch::{fetch_step, run_fetch, FetchOutcome, Step, TransportEvent};

fn good_page() -> String {
    "<!-- ここから発電量表示 -->1.500<!-- ここまで発電量表示 -->\n<!-- ここから消費量表示 -->0.800<!-- ここまで消費量表示 -->"
        .to_string()
}

fn bad_event() -> TransportEvent {
    TransportEvent::Body("no markers here".to_string())
}

#[test]
fn step_success_on_good_body() {
    let step = fetch_step(0, &TransportEvent::Body(good_page()));
    match step {
        Step::Done(FetchOutcome::Success(r)) => {
            assert_eq!(r.generation, 1500);
            assert_eq!(r.consumption, 800);
        },
        _ => panic!("expected immediate success"),
    }
}

#[test]
fn step_failure_is_never_retried() {
    let step = fetch_step(0, &TransportEvent::Failure("connection refused".to_string()));
    match step {
        Step::Done(FetchOutcome::FetchFailed(cause)) => {
            assert_eq!(cause, "connection refused");
        },
        _ => panic!("expected an immediate transport failure"),
    }
}

#[test]
fn step_backoff_schedule() {
    for (attempts, delay) in [(0u32, 2u64), (1, 4), (2, 8)] {
        match fetch_step(attempts, &bad_event()) {
            Step::RetryAfter { attempts: a, delay_secs } => {
                assert_eq!(a, attempts + 1);
                assert_eq!(delay_secs, delay);
            },
            _ => panic!("expected a retry"),
        }
    }
}

#[test]
fn step_exhausts_after_fourth_failure() {
    match fetch_step(3, &bad_event()) {
        Step::Done(FetchOutcome::ParseExhausted) => {},
        _ => panic!("expected exhaustion"),
    }
}

#[test]
fn retry_then_success() {
    let events = vec![
        bad_event(),
        bad_event(),
        bad_event(),
        TransportEvent::Body(good_page()),
    ];
    let t = run_fetch(&events);
    assert_eq!(t.calls, 4);
    assert_eq!(t.delays, vec![2, 4, 8]);
    match t.outcome {
        FetchOutcome::Success(r) => {
            assert_eq!(r.generation, 1500);
            assert_eq!(r.consumption, 800);
        },
        _ => panic!("expected success on the fourth call"),
    }
}

#[test]
fn retry_exhaustion() {
    let events = vec![bad_event(), bad_event(), bad_event(), bad_event()];
    let t = run_fetch(&events);
    assert_eq!(t.calls, 4);
    assert_eq!(t.delays, vec![2, 4, 8]);
    assert!(matches!(t.outcome, FetchOutcome::ParseExhausted));
}

#[test]
fn transport_failure_is_immediate() {
    let events = vec![
        TransportEvent::Failure("boom".to_string()),
        TransportEvent::Body(good_page()),
        bad_event(),
        bad_event(),
    ];
    let t = run_fetch(&events);
    assert_eq!(t.calls, 1);
    assert!(t.delays.is_empty());
    match t.outcome {
        FetchOutcome::FetchFailed(cause) => assert_eq!(cause, "boom"),
        _ => panic!("expected a transport failure"),
    }
}

#[test]
fn transport_failure_on_retry_is_immediate() {
    let events = vec![
        bad_event(),
        TransportEvent::Failure("reset".to_string()),
        bad_event(),
        bad_event(),
    ];
    let t = run_fetch(&events);
    assert_eq!(t.calls, 2);
    assert_eq!(t.delays, vec![2]);
    match t.outcome {
        FetchOutcome::FetchFailed(cause) => assert_eq!(cause, "reset"),
        _ => panic!("expected a transport failure"),
    }
}
