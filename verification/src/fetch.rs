//! The retry protocol around an injected transport.
//!
//! The fetcher makes up to four transport calls.  A transport failure ends
//! the operation at once with `FetchFailed` — it is never retried.  A body
//! that parses ends it with `Success`.  A body that does not parse bumps the
//! attempt counter; after the fourth such failure the operation ends with
//! `ParseExhausted`, and before that the fetcher sleeps `2^attempts` seconds
//! (2 s, 4 s, 8 s) and calls again.
//!
//! The decision after each call is [`fetch_step`]; the caller performs the
//! transport call and the sleep.  [`run_fetch`] runs the same protocol
//! against a pre-scripted list of transport answers, which pins down how
//! many calls a run makes and which delays it sleeps.

use vstd::prelude::*;

use crate::reading;
use crate::reading::Reading;

verus! {

/// What one transport call produced: a decoded page body, or a transport
/// failure described by a message.
#[derive(Debug)]
pub enum TransportEvent {
    Body(String),
    Failure(String),
}

/// The outcome of one whole fetch operation.
#[derive(Debug)]
pub enum FetchOutcome {
    /// A page body parsed; these are its readings.
    Success(Reading),
    /// The transport failed; the operation ended at once with its message.
    FetchFailed(String),
    /// Four bodies in a row failed to parse.
    ParseExhausted,
}

/// What the fetcher does after one transport call: finish with an outcome,
/// or sleep `delay_secs` seconds and call again with the new attempt count.
#[derive(Debug)]
pub enum Step {
    Done(FetchOutcome),
    RetryAfter { attempts: u32, delay_secs: u64 },
}

/// The mathematical image of a transport answer.
pub enum EventModel {
    GotBody(Seq<char>),
    Failed(Seq<char>),
}

/// The mathematical image of an outcome.
pub enum OutcomeModel {
    Got(int, int),
    Failed(Seq<char>),
    Exhausted,
}

/// The mathematical image of a step.
pub enum StepModel {
    Finish(OutcomeModel),
    Retry { attempts: int, delay_secs: int },
}

/// The image of a transport answer.
pub open spec fn event_model(e: TransportEvent) -> EventModel {
    match e {
        TransportEvent::Body(b) => EventModel::GotBody(b@),
        TransportEvent::Failure(c) => EventModel::Failed(c@),
    }
}

/// The image of an outcome.
pub open spec fn outcome_model(o: FetchOutcome) -> OutcomeModel {
    match o {
        FetchOutcome::Success(r) => OutcomeModel::Got(r.generation as int, r.consumption as int),
        FetchOutcome::FetchFailed(c) => OutcomeModel::Failed(c@),
        FetchOutcome::ParseExhausted => OutcomeModel::Exhausted,
    }
}

/// The image of a step.
pub open spec fn step_model(s: Step) -> StepModel {
    match s {
        Step::Done(o) => StepModel::Finish(outcome_model(o)),
        Step::RetryAfter { attempts, delay_secs } => StepModel::Retry {
            attempts: attempts as int,
            delay_secs: delay_secs as int,
        },
    }
}

/// Two to the `k`.
pub open spec fn spec_pow2(k: nat) -> int
    decreases k,
{
    if k == 0 {
        1
    } else {
        2 * spec_pow2((k - 1) as nat)
    }
}

/// The decision after one transport call, with `attempts` parse failures
/// behind us: a failure or a parsing body finishes; an unparseable body
/// finishes with exhaustion after the fourth failure and otherwise asks for
/// a retry after `2^(attempts + 1)` seconds.
pub open spec fn spec_step(attempts: int, e: EventModel) -> StepModel {
    match e {
        EventModel::Failed(cause) => StepModel::Finish(OutcomeModel::Failed(cause)),
        EventModel::GotBody(b) => match reading::spec_parse(b) {
            Some(v) => StepModel::Finish(OutcomeModel::Got(v.0, v.1)),
            None => if attempts >= 3 {
                StepModel::Finish(OutcomeModel::Exhausted)
            } else {
                StepModel::Retry { attempts: attempts + 1, delay_secs: spec_pow2((attempts + 1) as nat) }
            },
        },
    }
}

/// The backoff delay before attempt `a`: `2^a` seconds.
fn delay_secs(a: u32) -> (r: u64)
    requires
        1 <= a <= 3,
    ensures
        r as int == spec_pow2(a as nat),
{
    proof {
        assert(spec_pow2(0) == 1);
        assert(spec_pow2(1) == 2);
        assert(spec_pow2(2) == 4);
        assert(spec_pow2(3) == 8);
    }
    if a == 1 {
        2
    } else if a == 2 {
        4
    } else {
        8
    }
}

/// One decision of the retry protocol.
pub fn fetch_step(attempts: u32, event: &TransportEvent) -> (r: Step)
    requires
        attempts <= 3,
    ensures
        step_model(r) == spec_step(attempts as int, event_model(*event)),
{
    match event {
        TransportEvent::Failure(c) => Step::Done(FetchOutcome::FetchFailed(c.clone())),
        TransportEvent::Body(b) => match reading::parse(b.clone()) {
            Some(v) => Step::Done(
                FetchOutcome::Success(Reading { generation: v.0, consumption: v.1 }),
            ),
            None => {
                if attempts >= 3 {
                    Step::Done(FetchOutcome::ParseExhausted)
                } else {
                    Step::RetryAfter { attempts: attempts + 1, delay_secs: delay_secs(attempts + 1) }
                }
            },
        },
    }
}

/// What a whole run of the protocol does when the transport's successive
/// answers are `events`, starting with `attempts` failures behind us: the
/// outcome, the number of transport calls made, and the delays slept
/// between them, in order.
pub open spec fn run_model(events: Seq<TransportEvent>, attempts: int) -> (OutcomeModel, int, Seq<
    int,
>)
    decreases events.len(),
{
    if events.len() == 0 {
        (OutcomeModel::Exhausted, 0, Seq::<int>::empty())
    } else {
        match spec_step(attempts, event_model(events[0])) {
            StepModel::Finish(o) => (o, 1, Seq::<int>::empty()),
            StepModel::Retry { attempts: a2, delay_secs: d } => {
                let rest = run_model(events.skip(1), a2);
                (rest.0, 1 + rest.1, seq![d] + rest.2)
            },
        }
    }
}

/// What one run of the protocol did.
pub struct FetchTrace {
    /// The outcome surfaced to the caller.
    pub outcome: FetchOutcome,
    /// How many transport calls were made.
    pub calls: usize,
    /// The backoff delays slept between calls, in seconds, in order.
    pub delays: Vec<u64>,
}

/// Run the whole retry protocol against a pre-scripted transport whose
/// successive answers are `events`.  At most four answers are consumed.
pub fn run_fetch(events: &Vec<TransportEvent>) -> (t: FetchTrace)
    requires
        events@.len() >= 4,
    ensures
        ({
            let m = run_model(events@, 0);
            &&& outcome_model(t.outcome) == m.0
            &&& t.calls as int == m.1
            &&& t.delays@.map_values(|d: u64| d as int) == m.2
        }),
{
    let mut attempts: u32 = 0;
    let mut idx: usize = 0;
    let mut delays: Vec<u64> = Vec::new();
    proof {
        assert(events@.skip(0) =~= events@);
        assert(delays@.map_values(|d: u64| d as int) =~= Seq::<int>::empty());
    }
    loop
        invariant
            events@.len() >= 4,
            attempts <= 3,
            idx == attempts,
            ({
                let full = run_model(events@, 0);
                let rem = run_model(events@.skip(idx as int), attempts as int);
                &&& full.0 == rem.0
                &&& full.1 == idx + rem.1
                &&& full.2 == delays@.map_values(|d: u64| d as int) + rem.2
            }),
        decreases 4 - idx,
    {
        proof {
            assert(events@.skip(idx as int)[0] == events@[idx as int]);
        }
        let step = fetch_step(attempts, &events[idx]);
        match step {
            Step::Done(o) => {
                proof {
                    assert(step_model(Step::Done(o)) == StepModel::Finish(outcome_model(o)));
                    let rem = run_model(events@.skip(idx as int), attempts as int);
                    assert(rem.0 == outcome_model(o) && rem.1 == 1 && rem.2
                        == Seq::<int>::empty());
                    assert(delays@.map_values(|d: u64| d as int) + Seq::<int>::empty()
                        =~= delays@.map_values(|d: u64| d as int));
                }
                return FetchTrace { outcome: o, calls: idx + 1, delays };
            },
            Step::RetryAfter { attempts: a2, delay_secs: d } => {
                proof {
                    let rem = run_model(events@.skip(idx as int), attempts as int);
                    assert(spec_step(attempts as int, event_model(events@[idx as int]))
                        == StepModel::Retry { attempts: a2 as int, delay_secs: d as int });
                    assert(a2 == attempts + 1);
                    assert(events@.skip(idx as int).skip(1) =~= events@.skip(idx + 1));
                    let rest = run_model(events@.skip(idx + 1), a2 as int);
                    assert(rem.0 == rest.0 && rem.1 == 1 + rest.1 && rem.2 == seq![d as int]
                        + rest.2);
                    assert(delays@.map_values(|dd: u64| dd as int) + (seq![d as int] + rest.2)
                        =~= delays@.push(d).map_values(|dd: u64| dd as int) + rest.2);
                }
                delays.push(d);
                attempts = a2;
                idx += 1;
            },
        }
    }
}

/// A transport answer that carries a body the scanner cannot use.
pub open spec fn unparseable(e: TransportEvent) -> bool {
    match e {
        TransportEvent::Body(b) => reading::spec_parse(b@) is None,
        TransportEvent::Failure(_) => false,
    }
}

/// A transport failure on the first call ends the fetch at once: one call,
/// no backoff, the failure surfaced as it came.
pub proof fn lemma_transport_failure_immediate(events: Seq<TransportEvent>, cause: Seq<char>)
    requires
        events.len() >= 1,
        event_model(events[0]) == EventModel::Failed(cause),
    ensures
        run_model(events, 0) == (OutcomeModel::Failed(cause), 1int, Seq::<int>::empty()),
{
}

/// When the first four answers all carry unparseable bodies, the transport
/// is called exactly four times, the backoffs are 2, 4 and 8 seconds, and
/// the fetch reports exhaustion.
pub proof fn lemma_retry_exhaustion(events: Seq<TransportEvent>)
    requires
        events.len() >= 4,
        forall|k: int| 0 <= k < 4 ==> unparseable(#[trigger] events[k]),
    ensures
        run_model(events, 0) == (OutcomeModel::Exhausted, 4int, seq![2int, 4int, 8int]),
{
    assert(spec_pow2(0) == 1);
    assert(spec_pow2(1) == 2);
    assert(spec_pow2(2) == 4);
    assert(spec_pow2(3) == 8);
    assert(events.skip(1)[0] == events[1]);
    assert(events.skip(1).skip(1) =~= events.skip(2));
    assert(events.skip(2)[0] == events[2]);
    assert(events.skip(2).skip(1) =~= events.skip(3));
    assert(events.skip(3)[0] == events[3]);
    assert(run_model(events.skip(3), 3) == (OutcomeModel::Exhausted, 1int, Seq::<int>::empty()));
    assert(run_model(events.skip(2), 2) =~~= (OutcomeModel::Exhausted, 2int, seq![8int]));
    assert(run_model(events.skip(1), 1) =~~= (OutcomeModel::Exhausted, 3int, seq![4int, 8int]));
    assert(run_model(events, 0) =~~= (OutcomeModel::Exhausted, 4int, seq![2int, 4int, 8int]));
}

/// When the first three answers carry unparseable bodies and the fourth a
/// body whose readings are `(g, c)`, the fetch succeeds on the fourth call,
/// after backoffs of 2, 4 and 8 seconds.
pub proof fn lemma_retry_then_success(events: Seq<TransportEvent>, b: Seq<char>, g: int, c: int)
    requires
        events.len() >= 4,
        forall|k: int| 0 <= k < 3 ==> unparseable(#[trigger] events[k]),
        event_model(events[3]) == EventModel::GotBody(b),
        reading::spec_parse(b) == Some((g, c)),
    ensures
        run_model(events, 0) == (OutcomeModel::Got(g, c), 4int, seq![2int, 4int, 8int]),
{
    assert(spec_pow2(0) == 1);
    assert(spec_pow2(1) == 2);
    assert(spec_pow2(2) == 4);
    assert(spec_pow2(3) == 8);
    assert(events.skip(1)[0] == events[1]);
    assert(events.skip(1).skip(1) =~= events.skip(2));
    assert(events.skip(2)[0] == events[2]);
    assert(events.skip(2).skip(1) =~= events.skip(3));
    assert(events.skip(3)[0] == events[3]);
    assert(run_model(events.skip(3), 3) == (OutcomeModel::Got(g, c), 1int, Seq::<int>::empty()));
    assert(run_model(events.skip(2), 2) =~~= (OutcomeModel::Got(g, c), 2int, seq![8int]));
    assert(run_model(events.skip(1), 1) =~~= (OutcomeModel::Got(g, c), 3int, seq![4int, 8int]));
    assert(run_model(events, 0) =~~= (OutcomeModel::Got(g, c), 4int, seq![2int, 4int, 8int]));
}

} // verus!
