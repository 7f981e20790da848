use vstd::prelude::*;
use crate::emission::{deliver, delivered, views, EmitError};
use crate::hub::EventHub;
use crate::listener::{Handler, Listener};
use crate::registry::ListenerRegistry;

verus! {

/// Something that events can be emitted into with only the value at hand.
pub trait EventEmitter<T> {
    fn emit(&self, event_arg: T) -> Result<(), EmitError>;
}

/// An emitter with its listener fixed when it was made: one listener, or
/// none at all.
pub struct EventHubEmitter<H> {
    listener: Option<Listener<H>>,
}

impl<H> EventHubEmitter<H> {
    /// The listeners a call reaches.
    pub closed spec fn targets(&self) -> Seq<Listener<H>> {
        match self.listener {
            Some(l) => seq![l],
            None => Seq::empty(),
        }
    }

    /// An emitter that delivers to `listener` alone.
    pub fn new(listener: Listener<H>) -> (r: Self)
        ensures
            r.targets() == seq![listener],
    {
        EventHubEmitter { listener: Some(listener) }
    }

    /// An emitter that delivers nowhere.
    pub fn null() -> (r: Self)
        ensures
            r.targets() == Seq::<Listener<H>>::empty(),
    {
        EventHubEmitter { listener: None }
    }

    /// Delivers `event_arg` to this emitter's listener, if any. The error of
    /// a failed listener names no kind.
    pub fn emit<T: Clone>(&self, event_arg: T) -> (r: Result<(), EmitError>)
        where H: Handler<T>,
        ensures
            delivered(r, Seq::empty(), self.targets(), event_arg),
            self.targets().len() == 0 ==> r is Ok,
    {
        let mut listeners: Vec<Listener<H>> = Vec::new();
        match &self.listener {
            Some(l) => listeners.push(l.clone()),
            None => {},
        }
        assert(listeners@ =~= self.targets());
        let none: Vec<String> = Vec::new();
        assert(views(none@) =~= Seq::<Seq<char>>::empty());
        deliver(none, &listeners, &event_arg)
    }
}

impl<H, T: Clone> EventEmitter<T> for EventHubEmitter<H> where H: Handler<T> {
    fn emit(&self, event_arg: T) -> Result<(), EmitError> {
        EventHubEmitter::emit(self, event_arg)
    }
}

impl<H> Clone for EventHubEmitter<H> {
    fn clone(&self) -> (r: Self)
        ensures
            r.targets() == self.targets(),
    {
        let listener = match &self.listener {
            Some(l) => Some(l.clone()),
            None => None,
        };
        EventHubEmitter { listener }
    }
}

/// An emitter bound to event kinds. It holds no listeners: each call
/// resolves the kinds against the registry as it is at that time. With no
/// kinds it reaches every kind that has listeners at that time.
pub struct EventHubBroadcaster {
    event_kinds: Vec<String>,
}

impl EventHubBroadcaster {
    /// The kinds this emitter is bound to; none means every kind.
    pub closed spec fn kinds(&self) -> Seq<Seq<char>> {
        views(self.event_kinds@)
    }

    /// The kinds a call resolves to when the registry is `reg`.
    pub open spec fn tags<H>(&self, reg: ListenerRegistry<H>) -> Seq<Seq<char>> {
        if self.kinds().len() == 0 {
            reg.kind_order()
        } else {
            self.kinds()
        }
    }

    /// The listeners a call reaches when the registry is `reg`: those of
    /// each resolved kind in turn.
    pub open spec fn reach<H>(&self, reg: ListenerRegistry<H>) -> Seq<Listener<H>> {
        reg.gather(self.tags(reg))
    }

    pub fn new(event_kinds: Vec<String>) -> (r: Self)
        ensures
            r.kinds() == views(event_kinds@),
    {
        EventHubBroadcaster { event_kinds }
    }

    /// The kinds and the listeners a call reaches when the registry is
    /// `reg`, to deliver to after a lock around the registry is released.
    pub fn resolve<H>(&self, reg: &ListenerRegistry<H>) -> (r: (Vec<String>, Vec<Listener<H>>))
        requires
            reg.wf(),
        ensures
            views(r.0@) == self.tags(*reg),
            r.1@ == self.reach(*reg),
    {
        let resolved = if self.event_kinds.len() == 0 {
            reg.list_event_kinds()
        } else {
            let copy = self.event_kinds.clone();
            assert(copy@ =~= self.event_kinds@);
            copy
        };
        let listeners = reg.snapshot_kinds(&resolved);
        (resolved, listeners)
    }

    /// Delivers `event_arg` to every listener this emitter reaches in `hub`,
    /// each once per resolved kind, and reports the failures.
    pub fn emit<T: Clone, H: Handler<T>>(&self, hub: &EventHub<H>, event_arg: T) -> (r: Result<(), EmitError>)
        requires
            hub.wf(),
        ensures
            delivered(r, self.tags(hub@), self.reach(hub@), event_arg),
            self.reach(hub@).len() == 0 ==> r is Ok,
    {
        let (kinds, listeners) = self.resolve(hub.registry());
        deliver(kinds, &listeners, &event_arg)
    }
}

impl Clone for EventHubBroadcaster {
    fn clone(&self) -> (r: Self)
        ensures
            r.kinds() == self.kinds(),
    {
        let copy = self.event_kinds.clone();
        assert(copy@ =~= self.event_kinds@);
        EventHubBroadcaster { event_kinds: copy }
    }
}

} // verus!
