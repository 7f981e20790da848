use vstd::prelude::*;
use crate::emission::{delivered, failures_of, outcomes_of, reports, EmitError};
use crate::emitter::EventHubBroadcaster;
use crate::listener::{Handler, Listener};
use crate::registry::ListenerRegistry;

verus! {

/// Moving along `evolves_to` twice is moving along it once.
pub proof fn lemma_evolves_transitive<H>(
    a: ListenerRegistry<H>,
    b: ListenerRegistry<H>,
    c: ListenerRegistry<H>,
)
    requires
        a.evolves_to(b),
        b.evolves_to(c),
    ensures
        a.evolves_to(c),
{
    assert forall|id: u128| #[trigger] c.links().contains_key(id) implies a.links().contains_key(id)
        || !a.issued().contains(id) by {
        if !b.links().contains_key(id) {
            assert(!b.issued().contains(id));
        }
    }
}

/// Registrations never hand out the same id twice: an id returned by one
/// registration differs from the id returned by any later one, whatever
/// happened to the registry in between.
pub proof fn lemma_registered_ids_distinct<H>(
    after_first: ListenerRegistry<H>,
    first_id: u128,
    before_second: ListenerRegistry<H>,
    second_id: u128,
)
    requires
        after_first.issued().contains(first_id),
        after_first.evolves_to(before_second),
        !before_second.issued().contains(second_id),
    ensures
        first_id != second_id,
{
}

/// Removing an id reports `true` at most once: after a removal of `id`, a
/// later removal of it reports `false`, also when other listeners were
/// registered in between.
pub proof fn lemma_removal_reported_once<H>(
    before: ListenerRegistry<H>,
    after_removal: ListenerRegistry<H>,
    later: ListenerRegistry<H>,
    id: u128,
)
    requires
        before.wf(),
        after_removal.links() == before.links().remove(id),
        after_removal.issued() == before.issued(),
        before.links().contains_key(id) || before.issued().contains(id),
        after_removal.evolves_to(later),
    ensures
        !later.links().contains_key(id),
{
    before.lemma_registered_issued();
}

/// After every listener of kind `k` is removed, the kind has no listeners
/// and a count of zero.
pub proof fn lemma_kind_emptied<H>(
    before: ListenerRegistry<H>,
    after: ListenerRegistry<H>,
    k: Seq<char>,
)
    requires
        after.listeners() == before.listeners().remove(k),
    ensures
        !after.listeners().contains_key(k),
        after.entries(k).len() == 0,
{
}

/// A cleared registry lists no kinds.
pub proof fn lemma_cleared_lists_no_kinds<H>(reg: ListenerRegistry<H>)
    requires
        reg.wf(),
        reg.listeners() == Map::<Seq<char>, Seq<(u128, Listener<H>)>>::empty(),
    ensures
        reg.kind_order().len() == 0,
{
    reg.lemma_kind_order_listed();
    if reg.kind_order().len() > 0 {
        assert(reg.listeners().contains_key(reg.kind_order()[0]));
    }
}

/// Emitting to a kind without listeners succeeds.
pub proof fn lemma_emit_to_no_listeners<T: Clone, H: Handler<T>>(
    reg: ListenerRegistry<H>,
    k: Seq<char>,
    kinds: Seq<Seq<char>>,
    r: Result<(), EmitError>,
    event_arg: T,
)
    requires
        !reg.listeners().contains_key(k),
        delivered(r, kinds, reg.targets(k), event_arg),
    ensures
        r is Ok,
{
    let outcomes = choose|outcomes: Seq<Result<(), String>>|
        #[trigger] outcomes_of(reg.targets(k), event_arg, outcomes) && #[trigger] reports(r, kinds, outcomes);
    assert(outcomes =~= Seq::<Result<(), String>>::empty());
}

/// The number of failed outcomes.
pub open spec fn failed_count(outcomes: Seq<Result<(), String>>) -> nat
    decreases outcomes.len(),
{
    if outcomes.len() == 0 {
        0
    } else {
        failed_count(outcomes.drop_last()) + if outcomes.last() is Err {
            1nat
        } else {
            0nat
        }
    }
}

proof fn lemma_failures_counted(outcomes: Seq<Result<(), String>>)
    ensures
        failures_of(outcomes).len() == failed_count(outcomes),
        failed_count(outcomes) == 0 <==> forall|i: int|
            0 <= i < outcomes.len() ==> #[trigger] outcomes[i] is Ok,
    decreases outcomes.len(),
{
    if outcomes.len() > 0 {
        let rest = outcomes.drop_last();
        lemma_failures_counted(rest);
        if failed_count(outcomes) == 0 {
            assert forall|i: int| 0 <= i < outcomes.len() implies #[trigger] outcomes[i] is Ok by {
                if i < rest.len() {
                    assert(rest[i] == outcomes[i]);
                }
            }
        }
        if forall|i: int| 0 <= i < outcomes.len() ==> #[trigger] outcomes[i] is Ok {
            assert forall|i: int| 0 <= i < rest.len() implies #[trigger] rest[i] is Ok by {
                assert(rest[i] == outcomes[i]);
            }
            assert(outcomes[outcomes.len() - 1] is Ok);
        }
    }
}

/// An emission fails exactly when some listener failed, and then its error
/// holds one message for each failed listener.
pub proof fn lemma_failures_reported_exactly(
    r: Result<(), EmitError>,
    kinds: Seq<Seq<char>>,
    outcomes: Seq<Result<(), String>>,
)
    requires
        reports(r, kinds, outcomes),
    ensures
        r is Ok <==> forall|i: int| 0 <= i < outcomes.len() ==> #[trigger] outcomes[i] is Ok,
        r is Err ==> r->Err_0.failures_view().len() == failed_count(outcomes),
{
    lemma_failures_counted(outcomes);
}

/// An emitter bound to a kind reaches a listener registered under that kind
/// after the emitter was made: it resolves the kind at each call.
pub proof fn lemma_emitter_late_binding<H>(
    e: EventHubBroadcaster,
    before: ListenerRegistry<H>,
    after: ListenerRegistry<H>,
    k: Seq<char>,
    id: u128,
    l: Listener<H>,
)
    requires
        e.kinds() == seq![k],
        after.listeners() == before.listeners().insert(k, before.entries(k).push((id, l))),
    ensures
        e.reach(after) == e.reach(before).push(l),
{
    lemma_single_kind_reach(e, before, k);
    lemma_single_kind_reach(e, after, k);
    assert(after.entries(k) == before.entries(k).push((id, l)));
    assert(after.targets(k) =~= before.targets(k).push(l));
}

/// An emitter bound to one kind reaches exactly that kind's listeners, and
/// its failures name that kind.
pub proof fn lemma_single_kind_reach<H>(e: EventHubBroadcaster, reg: ListenerRegistry<H>, k: Seq<char>)
    requires
        e.kinds() == seq![k],
    ensures
        e.tags(reg) == seq![k],
        e.reach(reg) == reg.targets(k),
{
    assert(e.tags(reg).drop_last() =~= Seq::<Seq<char>>::empty());
    assert(reg.gather(Seq::<Seq<char>>::empty()) == Seq::<Listener<H>>::empty());
    assert(reg.gather(e.tags(reg)) =~= reg.targets(k));
}

/// An emitter bound to a kind no longer reaches a listener once it was
/// removed: the kind's listeners shrink to the remaining ones.
pub proof fn lemma_emitter_after_removal<H>(
    e: EventHubBroadcaster,
    before: ListenerRegistry<H>,
    after: ListenerRegistry<H>,
    k: Seq<char>,
    j: int,
)
    requires
        e.kinds() == seq![k],
        before.listeners().contains_key(k),
        0 <= j < before.entries(k).len(),
        after.listeners() == crate::registry::drop_at(before.listeners(), k, j),
    ensures
        e.reach(after) == before.targets(k).remove(j),
{
    lemma_single_kind_reach(e, before, k);
    lemma_single_kind_reach(e, after, k);
    if before.entries(k).len() == 1 {
        assert(after.targets(k) =~= before.targets(k).remove(j));
    } else {
        assert(after.entries(k) == before.entries(k).remove(j));
        assert(after.targets(k) =~= before.targets(k).remove(j));
    }
}

/// A broadcaster bound to named kinds reaches the listeners of those kinds
/// alone, once per listed kind; bound to one kind, exactly that kind's
/// listeners.
pub proof fn lemma_broadcast_named_kinds<H>(
    e: EventHubBroadcaster,
    reg: ListenerRegistry<H>,
)
    requires
        e.kinds().len() > 0,
    ensures
        e.reach(reg) == reg.gather(e.kinds()),
        e.kinds().len() == 1 ==> e.reach(reg) == reg.targets(e.kinds()[0]),
{
    if e.kinds().len() == 1 {
        assert(e.kinds() =~= seq![e.kinds()[0]]);
        lemma_single_kind_reach(e, reg, e.kinds()[0]);
    }
}

proof fn lemma_gather_includes<H>(reg: ListenerRegistry<H>, ks: Seq<Seq<char>>, i: int, j: int)
    requires
        0 <= i < ks.len(),
        0 <= j < reg.targets(ks[i]).len(),
    ensures
        reg.gather(ks).contains(reg.targets(ks[i])[j]),
    decreases ks.len(),
{
    let rest = ks.drop_last();
    let tail = reg.targets(ks.last());
    if i == ks.len() - 1 {
        assert(reg.gather(ks)[reg.gather(rest).len() + j] == tail[j]);
    } else {
        assert(rest[i] == ks[i]);
        lemma_gather_includes(reg, rest, i, j);
        let p = choose|p: int| 0 <= p < reg.gather(rest).len() && reg.gather(rest)[p] == reg.targets(ks[i])[j];
        assert(reg.gather(ks)[p] == reg.gather(rest)[p]);
    }
}

/// A broadcaster bound to no kinds reaches, at each call, every listener of
/// every kind that has listeners at that time.
pub proof fn lemma_broadcast_all_kinds<H>(
    e: EventHubBroadcaster,
    reg: ListenerRegistry<H>,
    k: Seq<char>,
    j: int,
)
    requires
        reg.wf(),
        e.kinds().len() == 0,
        reg.listeners().contains_key(k),
        0 <= j < reg.targets(k).len(),
    ensures
        e.reach(reg).contains(reg.targets(k)[j]),
{
    reg.lemma_kind_order_listed();
    let i = choose|i: int| 0 <= i < reg.kind_order().len() && reg.kind_order()[i] == k;
    lemma_gather_includes(reg, reg.kind_order(), i, j);
}

} // verus!
