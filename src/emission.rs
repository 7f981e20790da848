use vstd::prelude::*;
use crate::listener::{Handler, Listener};

verus! {

/// The text of each string, in order.
pub open spec fn views(v: Seq<String>) -> Seq<Seq<char>> {
    v.map_values(|s: String| s@)
}

/// An emission in which at least one listener failed: the kinds it was
/// addressed to and the message of every failed listener, in the order the
/// listeners were invoked.
pub struct EmitError {
    pub kinds: Vec<String>,
    pub failures: Vec<String>,
}

impl EmitError {
    pub open spec fn kinds_view(&self) -> Seq<Seq<char>> {
        views(self.kinds@)
    }

    pub open spec fn failures_view(&self) -> Seq<Seq<char>> {
        views(self.failures@)
    }
}

/// The messages of the failed outcomes, in order.
pub open spec fn failures_of(outcomes: Seq<Result<(), String>>) -> Seq<Seq<char>>
    decreases outcomes.len(),
{
    if outcomes.len() == 0 {
        Seq::empty()
    } else {
        let rest = failures_of(outcomes.drop_last());
        match outcomes.last() {
            Ok(_) => rest,
            Err(m) => rest.push(m@),
        }
    }
}

/// Whether `r` is what an emission addressed to `kinds` must return after
/// its listeners produced `outcomes`: success when none failed, else an
/// error that names the kinds and exactly the failures.
pub open spec fn reports(
    r: Result<(), EmitError>,
    kinds: Seq<Seq<char>>,
    outcomes: Seq<Result<(), String>>,
) -> bool {
    match r {
        Ok(_) => failures_of(outcomes).len() == 0,
        Err(e) => {
            &&& failures_of(outcomes).len() > 0
            &&& e.kinds_view() == kinds
            &&& e.failures_view() == failures_of(outcomes)
        },
    }
}

/// Whether `o` is an outcome of `listener` when handed a clone of
/// `event_arg`.
pub open spec fn outcome_of<T: Clone, H: Handler<T>>(
    listener: Listener<H>,
    event_arg: T,
    o: Result<(), String>,
) -> bool {
    exists|a: T| cloned(event_arg, a) && #[trigger] listener.handler().handled(a, o)
}

/// Whether `outcomes` holds, in order, one outcome of each of `listeners`,
/// each handed its own clone of `event_arg`.
pub open spec fn outcomes_of<T: Clone, H: Handler<T>>(
    listeners: Seq<Listener<H>>,
    event_arg: T,
    outcomes: Seq<Result<(), String>>,
) -> bool {
    &&& outcomes.len() == listeners.len()
    &&& forall|j: int|
        0 <= j < outcomes.len() ==> #[trigger] outcome_of(listeners[j], event_arg, outcomes[j])
}

/// Whether `r` reports an emission addressed to `kinds` in which each of
/// `listeners` was handed a clone of `event_arg` once, in order.
pub open spec fn delivered<T: Clone, H: Handler<T>>(
    r: Result<(), EmitError>,
    kinds: Seq<Seq<char>>,
    listeners: Seq<Listener<H>>,
    event_arg: T,
) -> bool {
    exists|outcomes: Seq<Result<(), String>>|
        #[trigger] outcomes_of(listeners, event_arg, outcomes) && #[trigger] reports(r, kinds, outcomes)
}

/// Invokes every listener once, in order, each with its own clone of
/// `event_arg`, and returns each listener's outcome. A failure does not
/// stop the listeners after it.
pub fn invoke_all<T: Clone, H: Handler<T>>(
    listeners: &Vec<Listener<H>>,
    event_arg: &T,
) -> (r: Vec<Result<(), String>>)
    ensures
        outcomes_of(listeners@, *event_arg, r@),
{
    let mut r: Vec<Result<(), String>> = Vec::new();
    let mut i: usize = 0;
    while i < listeners.len()
        invariant
            i <= listeners.len(),
            r.len() == i,
            forall|j: int| 0 <= j < i ==> #[trigger] outcome_of(listeners@[j], *event_arg, r@[j]),
        decreases listeners.len() - i,
    {
        let a = event_arg.clone();
        assert(cloned(*event_arg, a));
        let outcome = listeners[i].call(a);
        assert(outcome_of(listeners@[i as int], *event_arg, outcome));
        r.push(outcome);
        i = i + 1;
    }
    r
}

/// Folds the outcomes of one emission into its result.
pub fn aggregate(kinds: Vec<String>, outcomes: &Vec<Result<(), String>>) -> (r: Result<(), EmitError>)
    ensures
        reports(r, views(kinds@), outcomes@),
{
    let mut failures: Vec<String> = Vec::new();
    let mut i: usize = 0;
    while i < outcomes.len()
        invariant
            i <= outcomes.len(),
            views(failures@) == failures_of(outcomes@.subrange(0, i as int)),
        decreases outcomes.len() - i,
    {
        proof {
            let next = outcomes@.subrange(0, i + 1);
            assert(next.drop_last() =~= outcomes@.subrange(0, i as int));
        }
        match &outcomes[i] {
            Ok(_) => {},
            Err(m) => {
                failures.push(m.clone());
                assert(views(failures@) =~= failures_of(
                    outcomes@.subrange(0, i as int),
                ).push(m@));
            },
        }
        i = i + 1;
    }
    assert(outcomes@.subrange(0, outcomes.len() as int) =~= outcomes@);
    if failures.len() == 0 {
        Ok(())
    } else {
        Err(EmitError { kinds, failures })
    }
}

/// Delivers `event_arg` to every listener and reports the failures. With
/// no listeners it succeeds without invoking anything.
pub fn deliver<T: Clone, H: Handler<T>>(
    kinds: Vec<String>,
    listeners: &Vec<Listener<H>>,
    event_arg: &T,
) -> (r: Result<(), EmitError>)
    ensures
        delivered(r, views(kinds@), listeners@, *event_arg),
        listeners.len() == 0 ==> r is Ok,
{
    let ghost tags = views(kinds@);
    let outcomes = invoke_all(listeners, event_arg);
    let r = aggregate(kinds, &outcomes);
    proof {
        if listeners.len() == 0 {
            assert(outcomes@.len() == 0);
            assert(failures_of(outcomes@).len() == 0);
        }
        assert(reports(r, tags, outcomes@));
        assert(outcomes_of(listeners@, *event_arg, outcomes@));
    }
    r
}

} // verus!
