//! The shape of an event stream: `StartFbx` first and once, `EndFbx` last and
//! once, and node scopes opened and closed in stack order.
use vstd::prelude::*;

verus! {

/// The kind of an event, without its payload.
#[derive(PartialEq, Eq, Structural, Clone, Copy, Debug)]
pub enum EventKind {
    StartFbx,
    EndFbx,
    StartNode,
    EndNode,
    Comment,
}

/// Where a stream stands after some events.
pub struct StreamState {
    pub started: bool,
    pub finished: bool,
    pub depth: nat,
}

pub open spec fn initial() -> StreamState {
    StreamState { started: false, finished: false, depth: 0 }
}

/// The state after one more event, or `None` where the event cannot stand.
pub open spec fn step(st: StreamState, k: EventKind) -> Option<StreamState> {
    if k == EventKind::StartFbx {
        if st.started { None } else { Some(StreamState { started: true, finished: false, depth: 0 }) }
    } else if !st.started || st.finished {
        None
    } else if k == EventKind::StartNode {
        Some(StreamState { depth: st.depth + 1, ..st })
    } else if k == EventKind::EndNode {
        if st.depth == 0 { None } else { Some(StreamState { depth: (st.depth - 1) as nat, ..st }) }
    } else if k == EventKind::EndFbx {
        if st.depth == 0 { Some(StreamState { finished: true, ..st }) } else { None }
    } else {
        Some(st)
    }
}

/// The state after a whole sequence of events, or `None` where one of them
/// cannot stand.
pub open spec fn run(evs: Seq<EventKind>) -> Option<StreamState>
    decreases evs.len(),
{
    if evs.len() == 0 {
        Some(initial())
    } else {
        match run(evs.drop_last()) {
            Some(st) => step(st, evs.last()),
            None => None,
        }
    }
}

/// How many events of kind `k` the sequence holds.
pub open spec fn count(evs: Seq<EventKind>, k: EventKind) -> nat
    decreases evs.len(),
{
    if evs.len() == 0 {
        0
    } else {
        count(evs.drop_last(), k) + if evs.last() == k { 1nat } else { 0nat }
    }
}

/// Every prefix of an accepted stream is accepted.
pub proof fn lemma_prefix_accepted(evs: Seq<EventKind>, n: int)
    requires
        run(evs) is Some,
        0 <= n <= evs.len(),
    ensures
        run(evs.subrange(0, n)) is Some,
    decreases evs.len(),
{
    if n < evs.len() {
        assert(evs.drop_last().subrange(0, n) =~= evs.subrange(0, n));
        lemma_prefix_accepted(evs.drop_last(), n);
    } else {
        assert(evs.subrange(0, n) =~= evs);
    }
}

/// In an accepted stream the open depth is the number of `StartNode` events
/// less the number of `EndNode` events; a finished stream has as many of
/// each.
pub proof fn lemma_depth_counts(evs: Seq<EventKind>)
    requires
        run(evs) is Some,
    ensures
        count(evs, EventKind::StartNode) == count(evs, EventKind::EndNode) + run(evs)->0.depth,
        run(evs)->0.finished ==> count(evs, EventKind::StartNode) == count(evs, EventKind::EndNode),
    decreases evs.len(),
{
    if evs.len() > 0 {
        lemma_depth_counts(evs.drop_last());
    }
}

/// Nesting never goes negative: every prefix of an accepted stream holds at
/// least as many `StartNode` events as `EndNode` events.
pub proof fn lemma_nesting_never_negative(evs: Seq<EventKind>, n: int)
    requires
        run(evs) is Some,
        0 <= n <= evs.len(),
    ensures
        count(evs.subrange(0, n), EventKind::StartNode) >= count(evs.subrange(0, n), EventKind::EndNode),
{
    lemma_prefix_accepted(evs, n);
    lemma_depth_counts(evs.subrange(0, n));
}

/// In an accepted stream `StartFbx` comes first and only there, `EndFbx`
/// comes at most once and nothing follows it, and the stream is finished
/// exactly when it ends with `EndFbx`.
pub proof fn lemma_bracketing(evs: Seq<EventKind>)
    requires
        run(evs) is Some,
    ensures
        evs.len() > 0 ==> evs[0] == EventKind::StartFbx,
        forall|i: int| 0 < i < evs.len() ==> evs[i] != EventKind::StartFbx,
        forall|i: int| 0 <= i < evs.len() - 1 ==> evs[i] != EventKind::EndFbx,
        run(evs)->0.finished <==> (evs.len() > 0 && evs.last() == EventKind::EndFbx),
        run(evs)->0.started <==> evs.len() > 0,
    decreases evs.len(),
{
    if evs.len() > 0 {
        let init = evs.drop_last();
        lemma_bracketing(init);
        assert forall|i: int| 0 < i < evs.len() implies evs[i] != EventKind::StartFbx by {
            if i < evs.len() - 1 {
                assert(evs[i] == init[i]);
            }
        }
        assert forall|i: int| 0 <= i < evs.len() - 1 implies evs[i] != EventKind::EndFbx by {
            assert(evs[i] == init[i]);
            if i == init.len() - 1 && evs[i] == EventKind::EndFbx {
                assert(init.last() == EventKind::EndFbx);
                assert(run(init)->0.finished);
            }
        }
        if init.len() > 0 {
            assert(evs[0] == init[0]);
        }
    }
}

} // verus!
