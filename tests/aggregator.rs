use std::collections::VecDeque;

use exonum_events::{
    Action, Event, EventsAggregator, Height, InternalEvent, Polled, Round, Source,
};

type Poll<X> = Result<Polled<X>, String>;

/// A source that answers each poll with the next scripted result, and with
/// "not ready" once the script is used up.
struct Script<X> {
    answers: VecDeque<Poll<X>>,
}

impl<X> Script<X> {
    fn new(answers: Vec<Poll<X>>) -> Self {
        Script { answers: answers.into_iter().collect() }
    }

    fn idle() -> Self {
        Script::new(Vec::new())
    }

    fn poll(&mut self) -> Poll<X> {
        self.answers.pop_front().unwrap_or(Ok(Polled::NotReady))
    }

    fn left(&self) -> usize {
        self.answers.len()
    }
}

type Ev = Event<&'static str, u32, char>;
type Agg = EventsAggregator<Script<u32>, Script<&'static str>, Script<char>, Script<InternalEvent>>;

fn aggregator(
    internal: Vec<Poll<InternalEvent>>,
    timeout: Vec<Poll<u32>>,
    network: Vec<Poll<&'static str>>,
    api: Vec<Poll<char>>,
) -> Agg {
    EventsAggregator::new(
        Script::new(timeout),
        Script::new(network),
        Script::new(api),
        Script::new(internal),
    )
}

/// Runs one step, polling exactly the sources the aggregator asks for.
fn step(agg: &mut Agg) -> Poll<Ev> {
    let mut action: Action<Ev, String> = agg.start();
    loop {
        action = match action {
            Action::PollSource(Source::Internal) => {
                let p = agg.internal.poll();
                agg.on_internal(p)
            }
            Action::PollSource(Source::Timeout) => {
                let p = agg.timeout.poll();
                agg.on_timeout(p)
            }
            Action::PollSource(Source::Network) => {
                let p = agg.network.poll();
                agg.on_network(p)
            }
            Action::PollSource(Source::Api) => {
                let p = agg.api.poll();
                agg.on_api(p)
            }
            other => return other.outcome().unwrap(),
        };
    }
}

fn jump(h: u64, r: u32) -> InternalEvent {
    InternalEvent::JumpToRound(Height(h), Round(r))
}

fn ready<X>(x: X) -> Poll<X> {
    Ok(Polled::Ready(x))
}

#[test]
fn internal_wins_then_network_then_internal_again() {
    let i1 = jump(1, 1);
    let i2 = jump(1, 2);
    let mut agg = aggregator(
        vec![ready(i1), Ok(Polled::NotReady), ready(i2)],
        vec![],
        vec![ready("n1")],
        vec![],
    );
    assert_eq!(step(&mut agg), ready(Event::Internal(i1)));
    assert_eq!(step(&mut agg), ready(Event::Network("n1")));
    assert_eq!(step(&mut agg), ready(Event::Internal(i2)));
    assert_eq!(step(&mut agg), Ok(Polled::NotReady));
}

#[test]
fn timeout_close_drops_pending_network_and_api_items() {
    let mut agg = aggregator(vec![], vec![Ok(Polled::Closed)], vec![ready("n1")], vec![ready('a')]);
    assert_eq!(step(&mut agg), Ok(Polled::Closed));
    assert!(agg.is_done());
    assert_eq!(step(&mut agg), Ok(Polled::Closed));
    assert_eq!(step(&mut agg), Ok(Polled::Closed));
    assert_eq!(agg.network.left(), 1);
    assert_eq!(agg.api.left(), 1);
}

#[test]
fn priority_order_among_ready_sources() {
    let i = jump(3, 0);
    let mut agg = aggregator(
        vec![ready(i), Ok(Polled::NotReady), Ok(Polled::NotReady), Ok(Polled::NotReady)],
        vec![ready(7), Ok(Polled::NotReady), Ok(Polled::NotReady)],
        vec![ready("n"), Ok(Polled::NotReady)],
        vec![ready('a')],
    );
    assert_eq!(step(&mut agg), ready(Event::Internal(i)));
    assert_eq!(step(&mut agg), ready(Event::Timeout(7)));
    assert_eq!(step(&mut agg), ready(Event::Network("n")));
    assert_eq!(step(&mut agg), ready(Event::Api('a')));
    assert_eq!(step(&mut agg), Ok(Polled::NotReady));
}

#[test]
fn higher_source_is_not_skipped_by_a_lower_one() {
    let mut agg = aggregator(vec![], vec![], vec![ready("n1"), ready("n2")], vec![ready('a')]);
    assert_eq!(step(&mut agg), ready(Event::Network("n1")));
    assert_eq!(step(&mut agg), ready(Event::Network("n2")));
    assert_eq!(step(&mut agg), ready(Event::Api('a')));
}

#[test]
fn first_closed_source_ends_the_stream() {
    let i = jump(2, 5);
    let mut agg = aggregator(
        vec![ready(i), Ok(Polled::NotReady)],
        vec![ready(1)],
        vec![ready("n")],
        vec![Ok(Polled::Closed)],
    );
    assert_eq!(step(&mut agg), ready(Event::Internal(i)));
    assert_eq!(step(&mut agg), ready(Event::Timeout(1)));
    assert_eq!(step(&mut agg), ready(Event::Network("n")));
    assert_eq!(step(&mut agg), Ok(Polled::Closed));
    assert_eq!(step(&mut agg), Ok(Polled::Closed));
}

#[test]
fn closed_internal_source_ends_before_anything_else_is_polled() {
    let mut agg = aggregator(vec![Ok(Polled::Closed)], vec![ready(4)], vec![], vec![]);
    assert_eq!(step(&mut agg), Ok(Polled::Closed));
    assert_eq!(agg.timeout.left(), 1);
}

#[test]
fn terminated_aggregator_ignores_further_results() {
    let mut agg = aggregator(vec![Ok(Polled::Closed)], vec![], vec![], vec![]);
    assert_eq!(step(&mut agg), Ok(Polled::Closed));
    let start: Action<Ev, String> = agg.start();
    assert_eq!(start, Action::Complete);
    let a: Action<Ev, String> = agg.on_network(ready("late"));
    assert_eq!(a, Action::Complete);
    let b: Action<Ev, String> = agg.on_api(Err("late failure".to_string()));
    assert_eq!(b, Action::Complete);
    assert!(agg.is_done());
}

#[test]
fn error_is_passed_on_without_ending_the_stream() {
    let mut agg = aggregator(vec![], vec![], vec![Err("link down".to_string())], vec![ready('a')]);
    assert_eq!(step(&mut agg), Err("link down".to_string()));
    assert!(!agg.is_done());
    assert_eq!(agg.api.left(), 1);
}

#[test]
fn error_from_highest_source_comes_first() {
    let mut agg = aggregator(vec![Err("bad".to_string())], vec![ready(9)], vec![], vec![]);
    assert_eq!(step(&mut agg), Err("bad".to_string()));
    assert_eq!(agg.timeout.left(), 1);
}

#[test]
fn all_idle_sources_give_not_ready() {
    let mut agg = aggregator(vec![], vec![], vec![], vec![]);
    assert_eq!(step(&mut agg), Ok(Polled::NotReady));
    assert_eq!(step(&mut agg), Ok(Polled::NotReady));
    assert!(!agg.is_done());
}

#[test]
fn new_aggregator_starts_with_the_internal_source() {
    let agg = aggregator(vec![], vec![], vec![], vec![]);
    let a: Action<Ev, String> = agg.start();
    assert_eq!(a, Action::PollSource(Source::Internal));
    assert!(!agg.is_done());
}

#[test]
fn single_transitions() {
    let mut agg = aggregator(vec![], vec![], vec![], vec![]);
    let a: Action<Ev, String> = agg.on_internal(Ok(Polled::NotReady));
    assert_eq!(a, Action::PollSource(Source::Timeout));
    let a: Action<Ev, String> = agg.on_timeout(Ok(Polled::NotReady));
    assert_eq!(a, Action::PollSource(Source::Network));
    let a: Action<Ev, String> = agg.on_network(Ok(Polled::NotReady));
    assert_eq!(a, Action::PollSource(Source::Api));
    let a: Action<Ev, String> = agg.on_api(Ok(Polled::NotReady));
    assert_eq!(a, Action::Suspend);
    let a: Action<Ev, String> = agg.on_timeout(ready(5));
    assert_eq!(a, Action::Emit(Event::Timeout(5)));
    let a: Action<Ev, String> = agg.on_api(Err("e".to_string()));
    assert_eq!(a, Action::Fail("e".to_string()));
    assert!(!agg.is_done());
    let a: Action<Ev, String> = agg.on_network(Ok(Polled::Closed));
    assert_eq!(a, Action::Complete);
    assert!(agg.is_done());
}

#[test]
fn source_order() {
    assert_eq!(Source::Internal.next(), Some(Source::Timeout));
    assert_eq!(Source::Timeout.next(), Some(Source::Network));
    assert_eq!(Source::Network.next(), Some(Source::Api));
    assert_eq!(Source::Api.next(), None);
}

#[test]
fn action_outcomes() {
    let poll: Action<u8, String> = Action::PollSource(Source::Api);
    assert_eq!(poll.outcome(), None);
    let emit: Action<u8, String> = Action::Emit(3);
    assert_eq!(emit.outcome(), Some(Ok(Polled::Ready(3))));
    let complete: Action<u8, String> = Action::Complete;
    assert_eq!(complete.outcome(), Some(Ok(Polled::Closed)));
    let suspend: Action<u8, String> = Action::Suspend;
    assert_eq!(suspend.outcome(), Some(Ok(Polled::NotReady)));
    let fail: Action<u8, String> = Action::Fail("x".to_string());
    assert_eq!(fail.outcome(), Some(Err("x".to_string())));
}

#[test]
fn event_conversions_keep_the_payload() {
    let e: Ev = Event::from_network("peer");
    assert_eq!(e, Event::Network("peer"));
    let e: Ev = Event::from_timeout(12);
    assert_eq!(e, Event::Timeout(12));
    let e: Ev = Event::from_api('q');
    assert_eq!(e, Event::Api('q'));
    let e: Ev = Event::from_internal(jump(4, 2));
    assert_eq!(e, Event::Internal(InternalEvent::JumpToRound(Height(4), Round(2))));
}
