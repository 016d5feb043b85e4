//! The hooks that the scheduler has called.
//!
//! The scheduler keeps, as ghost state, the list of the lifecycle hooks it
//! has called on the commands it holds. The list is what the lifecycle
//! guarantees are stated over: `init` at most once before `end`, `periodic`
//! and `is_finished` only between `init` and `end`.

use vstd::prelude::*;

use crate::leaves::LifecycleCall;
use crate::state::CommandIndex;

verus! {

/// A call of a lifecycle hook.
pub enum HookCall {
    Init,
    Periodic,
    /// `is_finished`, with its answer.
    IsFinished(bool),
    /// `end`, with the flag it was handed.
    End(bool),
}

/// The hook of a call as the command received it: the call without its
/// period.
pub open spec fn hook_of(call: LifecycleCall) -> HookCall {
    match call {
        LifecycleCall::Init => HookCall::Init,
        LifecycleCall::Periodic(_) => HookCall::Periodic,
        LifecycleCall::IsFinished(finished) => HookCall::IsFinished(finished),
        LifecycleCall::End(interrupted) => HookCall::End(interrupted),
    }
}

/// The hooks of `calls`, in order.
pub open spec fn hooks_of(calls: Seq<LifecycleCall>) -> Seq<HookCall> {
    Seq::new(calls.len(), |i: int| hook_of(calls[i]))
}

/// A hook that the scheduler has called on the command under a handle.
pub struct Event {
    pub index: CommandIndex,
    pub call: HookCall,
}

/// The events for `calls` made, in order, on the command under `index`.
pub open spec fn events_of(index: CommandIndex, calls: Seq<HookCall>) -> Seq<Event> {
    Seq::new(calls.len(), |i: int| Event { index, call: calls[i] })
}

/// Whether, by `history`, the command under `index` has been initialised
/// and has not ended since.
pub open spec fn started(history: Seq<Event>, index: CommandIndex) -> bool
    decreases history.len(),
{
    if history.len() == 0 {
        false
    } else if history.last().index == index && history.last().call is Init {
        true
    } else if history.last().index == index && history.last().call is End {
        false
    } else {
        started(history.drop_last(), index)
    }
}

/// Whether a command that was started or not, as `was` says, is started
/// after `calls`.
pub open spec fn started_after(was: bool, calls: Seq<HookCall>) -> bool
    decreases calls.len(),
{
    if calls.len() == 0 {
        was
    } else if calls.last() is Init {
        true
    } else if calls.last() is End {
        false
    } else {
        started_after(was, calls.drop_last())
    }
}

/// Calls on one command change whether that command is started, and leave
/// every other command as it was.
pub proof fn lemma_started_after(
    history: Seq<Event>,
    index: CommandIndex,
    calls: Seq<HookCall>,
    other: CommandIndex,
)
    ensures
        started(history + events_of(index, calls), other) == if other == index {
            started_after(started(history, index), calls)
        } else {
            started(history, other)
        },
    decreases calls.len(),
{
    let longer = history + events_of(index, calls);
    if calls.len() == 0 {
        assert(longer =~= history);
    } else {
        let fewer = calls.drop_last();
        assert(longer.drop_last() =~= history + events_of(index, fewer));
        assert(longer.last() == Event { index, call: calls.last() });
        lemma_started_after(history, index, fewer, other);
    }
}

/// Whether `call` keeps to the lifecycle for a command that is started or
/// not, as `was` says: `init` only on a command that is not started,
/// `periodic` and `is_finished` only on one that is. `end` may come at any
/// time.
pub open spec fn call_in_order(was: bool, call: HookCall) -> bool {
    match call {
        HookCall::Init => !was,
        HookCall::Periodic => was,
        HookCall::IsFinished(_) => was,
        HookCall::End(_) => true,
    }
}

/// Whether every call in `history` keeps to the lifecycle, given the calls
/// before it.
pub open spec fn ordered(history: Seq<Event>) -> bool
    decreases history.len(),
{
    history.len() == 0 || (ordered(history.drop_last()) && call_in_order(
        started(history.drop_last(), history.last().index),
        history.last().call,
    ))
}

/// Whether `calls`, made one after the other on a command that is started
/// or not, as `was` says, keep to the lifecycle.
pub open spec fn calls_ordered(was: bool, calls: Seq<HookCall>) -> bool
    decreases calls.len(),
{
    calls.len() == 0 || (calls_ordered(was, calls.drop_last()) && call_in_order(
        started_after(was, calls.drop_last()),
        calls.last(),
    ))
}

/// Calls that keep to the lifecycle extend a history that does to one that
/// does.
pub proof fn lemma_ordered_after(history: Seq<Event>, index: CommandIndex, calls: Seq<HookCall>)
    requires
        ordered(history),
        calls_ordered(started(history, index), calls),
    ensures
        ordered(history + events_of(index, calls)),
    decreases calls.len(),
{
    let longer = history + events_of(index, calls);
    if calls.len() == 0 {
        assert(longer =~= history);
    } else {
        let fewer = calls.drop_last();
        assert(longer.drop_last() =~= history + events_of(index, fewer));
        assert(longer.last() == Event { index, call: calls.last() });
        lemma_ordered_after(history, index, fewer);
        lemma_started_after(history, index, fewer, index);
    }
}

/// A lone `end` keeps to the lifecycle and leaves the command not started.
pub proof fn lemma_end_alone(was: bool)
    ensures
        calls_ordered(was, seq![HookCall::End(true)]),
        !started_after(was, seq![HookCall::End(true)]),
{
    let calls = seq![HookCall::End(true)];
    assert(calls.drop_last() =~= Seq::<HookCall>::empty());
    assert(calls_ordered(was, calls.drop_last()));
}

/// A history that keeps to the lifecycle does so up to any point.
pub proof fn lemma_ordered_prefix(history: Seq<Event>, length: int)
    requires
        ordered(history),
        0 <= length <= history.len(),
    ensures
        ordered(history.take(length)),
    decreases history.len(),
{
    if length < history.len() {
        lemma_ordered_prefix(history.drop_last(), length);
        assert(history.drop_last().take(length) =~= history.take(length));
    } else {
        assert(history.take(length) =~= history);
    }
}

/// A command that is started at one point of the history and not at a later
/// one has been ended in between.
pub proof fn lemma_end_between(history: Seq<Event>, index: CommandIndex, from: int, to: int)
    requires
        0 <= from <= to <= history.len(),
        started(history.take(from), index),
        !started(history.take(to), index),
    ensures
        exists|k: int|
            from <= k < to && (#[trigger] history[k]).index == index && history[k].call is End,
    decreases to - from,
{
    if from < to {
        let upto = history.take(to);
        assert(upto.drop_last() =~= history.take(to - 1));
        assert(upto.last() == history[to - 1]);
        if history[to - 1].index == index && history[to - 1].call is End {
        } else {
            lemma_end_between(history, index, from, to - 1);
        }
    }
}

/// A command that is started at some point of the history has been
/// initialised before, and not ended since.
pub proof fn lemma_init_before(history: Seq<Event>, index: CommandIndex, at: int)
    requires
        0 <= at <= history.len(),
        started(history.take(at), index),
    ensures
        exists|i: int|
            {
                &&& 0 <= i < at
                &&& (#[trigger] history[i]).index == index
                &&& history[i].call is Init
                &&& forall|k: int|
                    i < k < at ==> !((#[trigger] history[k]).index == index && history[k].call is End)
            },
    decreases at,
{
    let upto = history.take(at);
    assert(upto.len() > 0);
    assert(upto.drop_last() =~= history.take(at - 1));
    assert(upto.last() == history[at - 1]);
    if history[at - 1].index == index && history[at - 1].call is Init {
        assert(history[at - 1].index == index);
    } else {
        lemma_init_before(history, index, at - 1);
        let i = choose|i: int|
            {
                &&& 0 <= i < at - 1
                &&& (#[trigger] history[i]).index == index
                &&& history[i].call is Init
                &&& forall|k: int|
                    i < k < at - 1 ==> !((#[trigger] history[k]).index == index
                        && history[k].call is End)
            };
        assert(history[i].index == index);
    }
}

} // verus!
