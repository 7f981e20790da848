use vstd::prelude::*;
use crate::emission::{deliver, delivered, views, EmitError};
use crate::emitter::{EventHubBroadcaster, EventHubEmitter};
use crate::id::ListenerId;
use crate::listener::{Handler, Listener};
use crate::registry::ListenerRegistry;

verus! {

/// The text of each string slice, in order.
pub open spec fn str_views(v: Seq<&str>) -> Seq<Seq<char>> {
    v.map_values(|s: &str| s@)
}

/// An event hub: listeners register against event kinds, and values
/// emitted for a kind are delivered to its listeners.
///
/// The hub owns its registry. To share one hub between threads, put it
/// behind a lock: take a snapshot of the listeners (or resolve an emitter)
/// under the lock, release it, then deliver, so that a listener may itself
/// use the hub.
pub struct EventHub<H> {
    registry: ListenerRegistry<H>,
}

impl<H> View for EventHub<H> {
    type V = ListenerRegistry<H>;

    closed spec fn view(&self) -> ListenerRegistry<H> {
        self.registry
    }
}

impl<H> EventHub<H> {
    pub open spec fn wf(&self) -> bool {
        self@.wf()
    }

    /// A hub with no listeners.
    pub fn new() -> (r: Self)
        ensures
            r.wf(),
            r@.listeners() == Map::<Seq<char>, Seq<(u128, Listener<H>)>>::empty(),
            r@.links() == Map::<u128, Seq<char>>::empty(),
            r@.issued() == Set::<u128>::empty(),
    {
        EventHub { registry: ListenerRegistry::new() }
    }

    /// The registry, to resolve an emitter against.
    pub fn registry(&self) -> (r: &ListenerRegistry<H>)
        ensures
            *r == self@,
    {
        &self.registry
    }

    /// Registers `listener` under `event_kind` and returns its id, which the
    /// hub had never issued before.
    pub fn add_listener(&mut self, event_kind: &str, listener: H) -> (id: ListenerId)
        requires
            old(self).wf(),
        ensures
            final(self).wf(),
            old(self)@.evolves_to(final(self)@),
            !old(self)@.issued().contains(id@),
            final(self)@.issued() == old(self)@.issued().insert(id@),
            final(self)@.links() == old(self)@.links().insert(id@, event_kind@),
            final(self)@.entries(event_kind@).last().1.handler() == listener,
            final(self)@.listeners() == old(self)@.listeners().insert(
                event_kind@,
                old(self)@.entries(event_kind@).push((id@, final(self)@.entries(event_kind@).last().1)),
            ),
    {
        let l = Listener::new(listener);
        let id = self.registry.register_listener(event_kind, l);
        assert(self@.entries(event_kind@).last() == (id@, l));
        id
    }

    /// Removes the listener `listener_id`. Returns whether it was registered;
    /// an unknown or already removed id changes nothing.
    pub fn remove_listener(&mut self, listener_id: ListenerId) -> (r: bool)
        requires
            old(self).wf(),
        ensures
            final(self).wf(),
            old(self)@.evolves_to(final(self)@),
            r == old(self)@.links().contains_key(listener_id@),
            final(self)@.links() == old(self)@.links().remove(listener_id@),
            final(self)@.issued() == old(self)@.issued(),
            !r ==> final(self)@.listeners() == old(self)@.listeners(),
            r ==> exists|j: int|
                0 <= j < old(self)@.entries(old(self)@.links()[listener_id@]).len()
                    && #[trigger] old(self)@.entries(old(self)@.links()[listener_id@])[j].0 == listener_id@
                    && final(self)@.listeners() == crate::registry::drop_at(
                    old(self)@.listeners(),
                    old(self)@.links()[listener_id@],
                    j,
                ),
    {
        self.registry.remove_listener(listener_id)
    }

    /// Removes every listener of `event_kind` and returns how many there were.
    pub fn remove_listeners_by_kind(&mut self, event_kind: &str) -> (r: usize)
        requires
            old(self).wf(),
        ensures
            final(self).wf(),
            old(self)@.evolves_to(final(self)@),
            r == old(self)@.entries(event_kind@).len(),
            final(self)@.listeners() == old(self)@.listeners().remove(event_kind@),
            final(self)@.links() == old(self)@.links().remove_keys(old(self)@.ids_of(event_kind@)),
            final(self)@.issued() == old(self)@.issued(),
    {
        self.registry.remove_listeners_by_kind(event_kind)
    }

    /// Removes every listener. Issued ids stay issued.
    pub fn clear_listeners(&mut self)
        requires
            old(self).wf(),
        ensures
            final(self).wf(),
            old(self)@.evolves_to(final(self)@),
            final(self)@.listeners() == Map::<Seq<char>, Seq<(u128, Listener<H>)>>::empty(),
            final(self)@.links() == Map::<u128, Seq<char>>::empty(),
            final(self)@.issued() == old(self)@.issued(),
    {
        self.registry.clear()
    }

    /// Every kind that has listeners, each once.
    pub fn list_event_kinds(&self) -> (r: Vec<String>)
        requires
            self.wf(),
        ensures
            views(r@) == self@.kind_order(),
            r.len() == self@.listeners().dom().len(),
            forall|i: int| 0 <= i < r.len() ==> self@.listeners().contains_key(#[trigger] r@[i]@),
            forall|i: int| 0 <= i < r.len() ==> #[trigger] self@.entries(r@[i]@).len() > 0,
            forall|k: Seq<char>|
                self@.listeners().contains_key(k) ==> exists|i: int|
                    0 <= i < r.len() && #[trigger] r@[i]@ == k,
            forall|i: int, j: int| 0 <= i < j < r.len() ==> #[trigger] r@[i]@ != #[trigger] r@[j]@,
    {
        proof {
            self@.lemma_shape();
        }
        self.registry.list_event_kinds()
    }

    /// Whether `event_kind` has listeners.
    pub fn has_listeners(&self, event_kind: &str) -> (r: bool)
        requires
            self.wf(),
        ensures
            r == self@.listeners().contains_key(event_kind@),
            r == (self@.entries(event_kind@).len() > 0),
    {
        self.registry.has_listeners(event_kind)
    }

    /// The number of listeners of `event_kind`.
    pub fn listeners_count(&self, event_kind: &str) -> (r: usize)
        requires
            self.wf(),
        ensures
            r == self@.entries(event_kind@).len(),
            r == self@.ids_of(event_kind@).len(),
    {
        self.registry.listeners_count(event_kind)
    }

    /// Copies of the listeners of `event_kind`, to deliver to after a lock
    /// around the hub is released.
    pub fn snapshot(&self, event_kind: &str) -> (r: Vec<Listener<H>>)
        requires
            self.wf(),
        ensures
            r@ == self@.targets(event_kind@),
    {
        self.registry.snapshot(event_kind)
    }

    /// Delivers `event_arg` to every listener of `event_kind`, each once.
    /// Failures are collected; they never stop delivery to the other
    /// listeners. With no listeners it succeeds.
    pub fn emit<T: Clone>(&self, event_kind: &str, event_arg: T) -> (r: Result<(), EmitError>)
        where H: Handler<T>,
        requires
            self.wf(),
        ensures
            delivered(r, seq![event_kind@], self@.targets(event_kind@), event_arg),
            self@.entries(event_kind@).len() == 0 ==> r is Ok,
    {
        let listeners = self.registry.snapshot(event_kind);
        let mut kinds: Vec<String> = Vec::new();
        kinds.push(event_kind.to_owned());
        assert(views(kinds@) =~= seq![event_kind@]);
        deliver(kinds, &listeners, &event_arg)
    }

    /// An emitter bound to `event_kind`. It resolves the kind's listeners at
    /// each call, so it also reaches listeners registered after it was made.
    pub fn new_emitter(&self, event_kind: &str) -> (r: EventHubBroadcaster)
        ensures
            r.kinds() == seq![event_kind@],
    {
        let mut kinds: Vec<String> = Vec::new();
        kinds.push(event_kind.to_owned());
        assert(views(kinds@) =~= seq![event_kind@]);
        EventHubBroadcaster::new(kinds)
    }

    /// An emitter bound to each of `event_kinds`. With no kinds given it
    /// reaches, at each call, every kind that has listeners at that time.
    pub fn new_broadcast_emitter(&self, event_kinds: &[&str]) -> (r: EventHubBroadcaster)
        ensures
            r.kinds() == str_views(event_kinds@),
    {
        let mut kinds: Vec<String> = Vec::new();
        let mut i: usize = 0;
        while i < event_kinds.len()
            invariant
                i <= event_kinds.len(),
                kinds.len() == i,
                views(kinds@) == str_views(event_kinds@.subrange(0, i as int)),
            decreases event_kinds.len() - i,
        {
            let kind = event_kinds[i].to_owned();
            assert(kind@ == event_kinds@[i as int]@);
            let ghost before = kinds@;
            kinds.push(kind);
            assert forall|j: int| 0 <= j < i + 1 implies #[trigger] views(kinds@)[j] == str_views(
                event_kinds@.subrange(0, i + 1),
            )[j] by {
                if j < i {
                    assert(kinds@[j] == before[j]);
                    assert(views(before)[j] == str_views(event_kinds@.subrange(0, i as int))[j]);
                }
            }
            assert(views(kinds@) =~= str_views(event_kinds@.subrange(0, i + 1)));
            i = i + 1;
        }
        assert(event_kinds@.subrange(0, event_kinds.len() as int) =~= event_kinds@);
        EventHubBroadcaster::new(kinds)
    }

    /// An emitter that delivers nowhere, for places that need an emitter
    /// but no delivery.
    pub fn new_null_emitter() -> (r: EventHubEmitter<H>)
        ensures
            r.targets() == Seq::<Listener<H>>::empty(),
    {
        EventHubEmitter::null()
    }
}

} // verus!
