use vstd::prelude::*;

verus! {

/// Height of the chain: an opaque ordinal of consensus progress.
#[derive(Clone, Copy, Debug, PartialEq, Eq, Structural, PartialOrd, Ord, Hash)]
pub struct Height(pub u64);

/// Round within a height: an opaque ordinal of consensus progress.
#[derive(Clone, Copy, Debug, PartialEq, Eq, Structural, PartialOrd, Ord, Hash)]
pub struct Round(pub u32);

/// Events that the handler schedules for itself, to run on a later tick of
/// the event loop instead of recursing.
#[derive(Clone, Copy, Debug, PartialEq, Eq, Structural)]
pub enum InternalEvent {
    /// Move consensus to the given height and round.
    JumpToRound(Height, Round),
}

/// One event of the merged stream, tagged with the source it came from.
///
/// `N` is what the network delivers, `T` what the timer fires and `A` what
/// the external API submits.
#[derive(Debug, PartialEq, Eq)]
pub enum Event<N, T, A> {
    Network(N),
    Timeout(T),
    Api(A),
    Internal(InternalEvent),
}

impl<N, T, A> Event<N, T, A> {
    /// Wraps an event of the network source.
    pub fn from_network(event: N) -> (r: Self)
        ensures
            r == Event::<N, T, A>::Network(event),
    {
        Event::Network(event)
    }

    /// Wraps a fired timeout.
    pub fn from_timeout(timeout: T) -> (r: Self)
        ensures
            r == Event::<N, T, A>::Timeout(timeout),
    {
        Event::Timeout(timeout)
    }

    /// Wraps a message of the external API.
    pub fn from_api(message: A) -> (r: Self)
        ensures
            r == Event::<N, T, A>::Api(message),
    {
        Event::Api(message)
    }

    /// Wraps an event that the handler scheduled for itself.
    pub fn from_internal(event: InternalEvent) -> (r: Self)
        ensures
            r == Event::<N, T, A>::Internal(event),
    {
        Event::Internal(event)
    }
}

/// The consumer of the merged stream: the consensus state machine.
pub trait EventHandler<N, T, A> {
    /// Handles one event; called once per event, never re-entrantly.
    fn handle_event(&mut self, event: Event<N, T, A>);
}

} // verus!
