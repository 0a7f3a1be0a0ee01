use vstd::prelude::*;

use crate::event::{Event, InternalEvent};

verus! {

/// The four event sources, listed from the highest priority to the lowest.
#[derive(Clone, Copy, Debug, PartialEq, Eq, Structural)]
pub enum Source {
    Internal,
    Timeout,
    Network,
    Api,
}

impl Source {
    /// Position in the priority order: 0 is polled first.
    pub open spec fn rank(self) -> nat {
        match self {
            Source::Internal => 0,
            Source::Timeout => 1,
            Source::Network => 2,
            Source::Api => 3,
        }
    }

    pub open spec fn spec_next(self) -> Option<Source> {
        match self {
            Source::Internal => Some(Source::Timeout),
            Source::Timeout => Some(Source::Network),
            Source::Network => Some(Source::Api),
            Source::Api => None,
        }
    }

    /// The source polled after this one within a step; `None` after the last.
    pub fn next(self) -> (r: Option<Source>)
        ensures
            r == self.spec_next(),
    {
        match self {
            Source::Internal => Some(Source::Timeout),
            Source::Timeout => Some(Source::Network),
            Source::Network => Some(Source::Api),
            Source::Api => None,
        }
    }
}

/// What a successful poll of a source (or of the merged stream) yields.
#[derive(Debug, PartialEq, Eq)]
pub enum Polled<X> {
    /// An item was ready and is handed over.
    Ready(X),
    /// The source has ended and will never yield again.
    Closed,
    /// Nothing is ready now; poll again later.
    NotReady,
}

/// What the aggregator asks its driver to do next.
#[derive(Debug, PartialEq, Eq)]
pub enum Action<X, E> {
    /// Poll this source and hand the result back.
    PollSource(Source),
    /// The step yields this item.
    Emit(X),
    /// The merged stream has ended.
    Complete,
    /// No source had anything: the step yields "not ready".
    Suspend,
    /// A source failed: the step yields this error.
    Fail(E),
}

impl<X, E> Action<X, E> {
    /// The result of the step that ends with this action, in the shape of a
    /// poll result; `None` while the step still asks for a source to be polled.
    pub fn outcome(self) -> (r: Option<Result<Polled<X>, E>>)
        ensures
            r == self.spec_outcome(),
    {
        match self {
            Action::PollSource(_) => None,
            Action::Emit(x) => Some(Ok(Polled::Ready(x))),
            Action::Complete => Some(Ok(Polled::Closed)),
            Action::Suspend => Some(Ok(Polled::NotReady)),
            Action::Fail(e) => Some(Err(e)),
        }
    }

    pub open spec fn spec_outcome(self) -> Option<Result<Polled<X>, E>> {
        match self {
            Action::PollSource(_) => None,
            Action::Emit(x) => Some(Ok(Polled::Ready(x))),
            Action::Complete => Some(Ok(Polled::Closed)),
            Action::Suspend => Some(Ok(Polled::NotReady)),
            Action::Fail(e) => Some(Err(e)),
        }
    }
}

/// Applies `f` to the item of a ready poll result.
pub open spec fn lift<X, Y, E>(polled: Result<Polled<X>, E>, f: spec_fn(X) -> Y) -> Result<Polled<Y>, E> {
    match polled {
        Ok(Polled::Ready(x)) => Ok(Polled::Ready(f(x))),
        Ok(Polled::Closed) => Ok(Polled::Closed),
        Ok(Polled::NotReady) => Ok(Polled::NotReady),
        Err(e) => Err(e),
    }
}

/// The first action of a step: nothing once terminated, else the
/// highest-priority source is polled.
pub open spec fn first_action<X, E>(done: bool) -> Action<X, E> {
    if done {
        Action::Complete
    } else {
        Action::PollSource(Source::Internal)
    }
}

/// The aggregator's transition on the result of polling `source`: the new
/// terminal flag and the next action.
///
/// A ready item is emitted at once; a closed source ends the whole stream;
/// an error is passed on; "not ready" moves to the next source, and past the
/// last one the step is not ready. Once terminated, nothing changes.
pub open spec fn transition<X, E>(done: bool, source: Source, polled: Result<Polled<X>, E>) -> (bool, Action<X, E>) {
    if done {
        (true, Action::Complete)
    } else {
        match polled {
            Ok(Polled::Ready(x)) => (false, Action::Emit(x)),
            Ok(Polled::Closed) => (true, Action::Complete),
            Ok(Polled::NotReady) => (false, match source.spec_next() {
                Some(s) => Action::PollSource(s),
                None => Action::Suspend,
            }),
            Err(e) => (false, Action::Fail(e)),
        }
    }
}

/// The merge's own state: whether the merged stream has ended.
///
/// It is set once, on the first closed source, and never cleared.
#[derive(Debug)]
pub struct MergeState {
    done: bool,
}

impl MergeState {
    /// Whether the merged stream has ended.
    pub closed spec fn is_terminated(&self) -> bool {
        self.done
    }

    /// A merge whose stream is still open.
    pub fn new() -> (r: Self)
        ensures
            !r.is_terminated(),
    {
        MergeState { done: false }
    }

    /// Whether the merged stream has ended.
    pub fn is_done(&self) -> (r: bool)
        ensures
            r == self.is_terminated(),
    {
        self.done
    }

    fn advance<X, E>(&mut self, source: Source, polled: Result<Polled<X>, E>) -> (r: Action<X, E>)
        ensures
            (final(self).is_terminated(), r) == transition(old(self).is_terminated(), source, polled),
    {
        if self.done {
            return Action::Complete;
        }
        match polled {
            Ok(Polled::Ready(x)) => Action::Emit(x),
            Ok(Polled::Closed) => {
                self.done = true;
                Action::Complete
            },
            Ok(Polled::NotReady) => match source.next() {
                Some(s) => Action::PollSource(s),
                None => Action::Suspend,
            },
            Err(e) => Action::Fail(e),
        }
    }
}

/// Merges four sources into one stream of `Event`s.
///
/// A step polls the sources in the fixed order internal, timeout, network,
/// api and stops at the first one that is not "not ready": a ready item is
/// emitted, an error is passed on, and a closed source ends the merged stream
/// for good, whatever the other sources still hold.
///
/// The aggregator owns the sources but does not poll them itself: a driver
/// runs each step by calling `start`, then polling the source that each
/// `Action::PollSource` names and handing the result to the matching
/// `on_*` method, until an action other than `PollSource` comes back.
#[derive(Debug)]
pub struct EventsAggregator<S1, S2, S3, S4> {
    pub state: MergeState,
    pub timeout: S1,
    pub network: S2,
    pub api: S3,
    pub internal: S4,
}

impl<S1, S2, S3, S4> EventsAggregator<S1, S2, S3, S4> {
    /// Takes ownership of the four sources; the merged stream starts open.
    pub fn new(timeout: S1, network: S2, api: S3, internal: S4) -> (r: Self)
        ensures
            !r.state.is_terminated(),
            r.timeout == timeout,
            r.network == network,
            r.api == api,
            r.internal == internal,
    {
        EventsAggregator { state: MergeState::new(), network, timeout, api, internal }
    }

    /// Whether the merged stream has ended.
    pub fn is_done(&self) -> (r: bool)
        ensures
            r == self.state.is_terminated(),
    {
        self.state.is_done()
    }

    /// Begins a step.
    pub fn start<X, E>(&self) -> (r: Action<X, E>)
        ensures
            r == first_action::<X, E>(self.state.is_terminated()),
    {
        if self.state.is_done() {
            Action::Complete
        } else {
            Action::PollSource(Source::Internal)
        }
    }

    pub open spec fn keeps_sources(&self, other: &Self) -> bool {
        &&& other.timeout == self.timeout
        &&& other.network == self.network
        &&& other.api == self.api
        &&& other.internal == self.internal
    }

    /// Takes the result of polling the internal source.
    pub fn on_internal<N, T, A, E>(&mut self, polled: Result<Polled<InternalEvent>, E>) -> (r: Action<Event<N, T, A>, E>)
        ensures
            (final(self).state.is_terminated(), r) == transition(
                old(self).state.is_terminated(),
                Source::Internal,
                lift(polled, |x: InternalEvent| Event::<N, T, A>::Internal(x)),
            ),
            old(self).keeps_sources(final(self)),
    {
        let lifted = match polled {
            Ok(Polled::Ready(x)) => Ok(Polled::Ready(Event::from_internal(x))),
            Ok(Polled::Closed) => Ok(Polled::Closed),
            Ok(Polled::NotReady) => Ok(Polled::NotReady),
            Err(e) => Err(e),
        };
        self.state.advance(Source::Internal, lifted)
    }

    /// Takes the result of polling the timeout source.
    pub fn on_timeout<N, T, A, E>(&mut self, polled: Result<Polled<T>, E>) -> (r: Action<Event<N, T, A>, E>)
        ensures
            (final(self).state.is_terminated(), r) == transition(
                old(self).state.is_terminated(),
                Source::Timeout,
                lift(polled, |x: T| Event::<N, T, A>::Timeout(x)),
            ),
            old(self).keeps_sources(final(self)),
    {
        let lifted = match polled {
            Ok(Polled::Ready(x)) => Ok(Polled::Ready(Event::from_timeout(x))),
            Ok(Polled::Closed) => Ok(Polled::Closed),
            Ok(Polled::NotReady) => Ok(Polled::NotReady),
            Err(e) => Err(e),
        };
        self.state.advance(Source::Timeout, lifted)
    }

    /// Takes the result of polling the network source.
    pub fn on_network<N, T, A, E>(&mut self, polled: Result<Polled<N>, E>) -> (r: Action<Event<N, T, A>, E>)
        ensures
            (final(self).state.is_terminated(), r) == transition(
                old(self).state.is_terminated(),
                Source::Network,
                lift(polled, |x: N| Event::<N, T, A>::Network(x)),
            ),
            old(self).keeps_sources(final(self)),
    {
        let lifted = match polled {
            Ok(Polled::Ready(x)) => Ok(Polled::Ready(Event::from_network(x))),
            Ok(Polled::Closed) => Ok(Polled::Closed),
            Ok(Polled::NotReady) => Ok(Polled::NotReady),
            Err(e) => Err(e),
        };
        self.state.advance(Source::Network, lifted)
    }

    /// Takes the result of polling the api source.
    pub fn on_api<N, T, A, E>(&mut self, polled: Result<Polled<A>, E>) -> (r: Action<Event<N, T, A>, E>)
        ensures
            (final(self).state.is_terminated(), r) == transition(
                old(self).state.is_terminated(),
                Source::Api,
                lift(polled, |x: A| Event::<N, T, A>::Api(x)),
            ),
            old(self).keeps_sources(final(self)),
    {
        let lifted = match polled {
            Ok(Polled::Ready(x)) => Ok(Polled::Ready(Event::from_api(x))),
            Ok(Polled::Closed) => Ok(Polled::Closed),
            Ok(Polled::NotReady) => Ok(Polled::NotReady),
            Err(e) => Err(e),
        };
        self.state.advance(Source::Api, lifted)
    }
}

/// What each source would yield if it were polled at a given step.
///
/// It describes a step from outside: the driver polls only the sources that
/// the aggregator asks for, so a field may never be looked at.
pub struct Readiness<N, T, A, E> {
    pub internal: Result<Polled<InternalEvent>, E>,
    pub timeout: Result<Polled<T>, E>,
    pub network: Result<Polled<N>, E>,
    pub api: Result<Polled<A>, E>,
}

/// Whether a poll result says "not ready".
pub open spec fn is_pending<X, E>(polled: Result<Polled<X>, E>) -> bool {
    polled matches Ok(Polled::NotReady)
}

/// Whether a poll result hands over an item.
pub open spec fn is_ready<X, E>(polled: Result<Polled<X>, E>) -> bool {
    polled matches Ok(Polled::Ready(_))
}

/// Whether a poll result says the source has ended.
pub open spec fn is_closed<X, E>(polled: Result<Polled<X>, E>) -> bool {
    polled matches Ok(Polled::Closed)
}

/// One move of a driver: hands `polled` to the aggregator if, and only if,
/// the pending action asks for `source`.
pub open spec fn drive<X, E>(at: (bool, Action<X, E>), source: Source, polled: Result<Polled<X>, E>) -> (bool, Action<X, E>) {
    if at.1 == Action::<X, E>::PollSource(source) {
        transition(at.0, source, polled)
    } else {
        at
    }
}

/// A whole step, from the terminal flag `done` and the readiness of the
/// sources: the terminal flag after the step and the step's final action.
pub open spec fn step<N, T, A, E>(done: bool, ready: Readiness<N, T, A, E>) -> (bool, Action<Event<N, T, A>, E>) {
    let s0 = (done, first_action::<Event<N, T, A>, E>(done));
    let s1 = drive(s0, Source::Internal, lift(ready.internal, |x: InternalEvent| Event::<N, T, A>::Internal(x)));
    let s2 = drive(s1, Source::Timeout, lift(ready.timeout, |x: T| Event::<N, T, A>::Timeout(x)));
    let s3 = drive(s2, Source::Network, lift(ready.network, |x: N| Event::<N, T, A>::Network(x)));
    drive(s3, Source::Api, lift(ready.api, |x: A| Event::<N, T, A>::Api(x)))
}

/// The final actions of successive steps, starting from the terminal flag
/// `done`.
pub open spec fn run<N, T, A, E>(done: bool, steps: Seq<Readiness<N, T, A, E>>) -> Seq<Action<Event<N, T, A>, E>>
    decreases steps.len(),
{
    if steps.len() == 0 {
        Seq::empty()
    } else {
        let (d, a) = step(done, steps[0]);
        seq![a].add(run(d, steps.drop_first()))
    }
}

/// Within a step, the event that is emitted comes from the highest-priority
/// source that has an item, and only if every source above it is not ready.
pub proof fn lemma_priority<N, T, A, E>(ready: Readiness<N, T, A, E>)
    ensures
        ready.internal matches Ok(Polled::Ready(x))
            ==> step(false, ready) == (false, Action::<Event<N, T, A>, E>::Emit(Event::Internal(x))),
        is_pending(ready.internal) ==> (ready.timeout matches Ok(Polled::Ready(x))
            ==> step(false, ready) == (false, Action::<Event<N, T, A>, E>::Emit(Event::Timeout(x)))),
        is_pending(ready.internal) && is_pending(ready.timeout) ==> (ready.network matches Ok(Polled::Ready(x))
            ==> step(false, ready) == (false, Action::<Event<N, T, A>, E>::Emit(Event::Network(x)))),
        is_pending(ready.internal) && is_pending(ready.timeout) && is_pending(ready.network)
            ==> (ready.api matches Ok(Polled::Ready(x))
            ==> step(false, ready) == (false, Action::<Event<N, T, A>, E>::Emit(Event::Api(x)))),
        (step(false, ready).1 matches Action::Emit(_)) ==> {
            ||| is_ready(ready.internal)
            ||| is_pending(ready.internal) && is_ready(ready.timeout)
            ||| is_pending(ready.internal) && is_pending(ready.timeout) && is_ready(ready.network)
            ||| is_pending(ready.internal) && is_pending(ready.timeout) && is_pending(ready.network)
                && is_ready(ready.api)
        },
{
}

/// Within a step, the first source that is found closed ends the merged
/// stream at once, whatever the sources below it hold; nothing else ends it.
pub proof fn lemma_fail_fast<N, T, A, E>(ready: Readiness<N, T, A, E>)
    ensures
        is_closed(ready.internal) ==> step(false, ready) == (true, Action::<Event<N, T, A>, E>::Complete),
        is_pending(ready.internal) && is_closed(ready.timeout)
            ==> step(false, ready) == (true, Action::<Event<N, T, A>, E>::Complete),
        is_pending(ready.internal) && is_pending(ready.timeout) && is_closed(ready.network)
            ==> step(false, ready) == (true, Action::<Event<N, T, A>, E>::Complete),
        is_pending(ready.internal) && is_pending(ready.timeout) && is_pending(ready.network)
            && is_closed(ready.api) ==> step(false, ready) == (true, Action::<Event<N, T, A>, E>::Complete),
        step(false, ready).0 ==> {
            ||| is_closed(ready.internal)
            ||| is_pending(ready.internal) && is_closed(ready.timeout)
            ||| is_pending(ready.internal) && is_pending(ready.timeout) && is_closed(ready.network)
            ||| is_pending(ready.internal) && is_pending(ready.timeout) && is_pending(ready.network)
                && is_closed(ready.api)
        },
        step(false, ready).1 == Action::<Event<N, T, A>, E>::Complete <==> step(false, ready).0,
{
}

/// Once the merged stream has ended, every later step reports the end again
/// and polls nothing.
pub proof fn lemma_terminated_absorbs<N, T, A, E>(steps: Seq<Readiness<N, T, A, E>>)
    ensures
        forall|s: Source, p: Result<Polled<Event<N, T, A>>, E>|
            #[trigger] transition(true, s, p) == (true, Action::<Event<N, T, A>, E>::Complete),
        first_action::<Event<N, T, A>, E>(true) == Action::<Event<N, T, A>, E>::Complete,
        run(true, steps).len() == steps.len(),
        forall|k: int| 0 <= k < steps.len() ==> #[trigger] run(true, steps)[k] == Action::<Event<N, T, A>, E>::Complete,
    decreases steps.len(),
{
    if steps.len() > 0 {
        lemma_terminated_absorbs(steps.drop_first());
        assert forall|k: int| 0 <= k < steps.len() implies #[trigger] run(true, steps)[k]
            == Action::<Event<N, T, A>, E>::Complete by {
            if k > 0 {
                assert(run(true, steps)[k] == run(true, steps.drop_first())[k - 1]);
            }
        }
    }
}

/// Over any run of steps, once a step reports the end of the merged stream,
/// every later step does too: nothing that a source still holds is emitted
/// after that.
pub proof fn lemma_end_is_final<N, T, A, E>(done: bool, steps: Seq<Readiness<N, T, A, E>>, k: int)
    requires
        0 <= k < steps.len(),
        run(done, steps)[k] == Action::<Event<N, T, A>, E>::Complete,
    ensures
        run(done, steps).len() == steps.len(),
        forall|j: int| k <= j < steps.len() ==> #[trigger] run(done, steps)[j] == Action::<Event<N, T, A>, E>::Complete,
    decreases steps.len(),
{
    lemma_run_len(done, steps);
    let (d, a) = step(done, steps[0]);
    let rest = steps.drop_first();
    if k == 0 {
        lemma_fail_fast(steps[0]);
        assert(d);
        lemma_terminated_absorbs(rest);
        assert forall|j: int| k <= j < steps.len() implies #[trigger] run(done, steps)[j]
            == Action::<Event<N, T, A>, E>::Complete by {
            if j > 0 {
                assert(run(done, steps)[j] == run(d, rest)[j - 1]);
            }
        }
    } else {
        assert(run(done, steps)[k] == run(d, rest)[k - 1]);
        lemma_end_is_final(d, rest, k - 1);
        assert forall|j: int| k <= j < steps.len() implies #[trigger] run(done, steps)[j]
            == Action::<Event<N, T, A>, E>::Complete by {
            assert(run(done, steps)[j] == run(d, rest)[j - 1]);
        }
    }
}

proof fn lemma_run_len<N, T, A, E>(done: bool, steps: Seq<Readiness<N, T, A, E>>)
    ensures
        run(done, steps).len() == steps.len(),
    decreases steps.len(),
{
    if steps.len() > 0 {
        let (d, a) = step(done, steps[0]);
        lemma_run_len(d, steps.drop_first());
    }
}

} // verus!
