//! Leaf commands: commands that nest no other command.
//!
//! * [`SimpleCommand`]: hooks given as closures, each of them optional;
//! * [`ConstCommand`]: stateless hooks and a borrowed requirement slice;
//! * [`WaitCommand`]: finishes once a set time has passed;
//! * [`CustomCommand`]: a client's own implementation of [`CommandTrait`].
//!
//! What a client's hook does when it is called is the client's affair and
//! stands in no contract. What the library does is to make the call: every
//! command keeps a record of the lifecycle calls made on it, as
//! [`LifecycleCall`]s, and the contract of each hook says, through the
//! `follows` relation of its type, how the command after the call relates to
//! the command before it.

use std::time::{Duration, Instant};
use vstd::prelude::*;
use vstd::string::StringExecFns;

use crate::hooks::{EndHook, FinishedHook, InitHook, PeriodicHook};
use crate::requirement::SubsystemSUID;
use crate::time::{
    duration_at_least, duration_debug, duration_debug_text, duration_nanos, instant_elapsed,
    instant_now,
};

verus! {

/// The command contract, for clients that write a command as a type of their
/// own.
///
/// Every method has a default, so an implementation overrides only what it
/// needs. The library proves nothing about an implementation and assumes
/// nothing about it.
pub trait CommandTrait {
    /// Called when the command is first scheduled.
    fn init(&mut self) {
    }

    /// Called every cycle.
    fn periodic(&mut self, _period: Duration) {
    }

    /// Called when the command is interrupted or finished.
    fn end(&mut self, _interrupted: bool) {
    }

    /// Called every cycle to check if the command is finished.
    fn is_finished(&mut self) -> bool {
        false
    }

    /// Returns the requirements of this command.
    fn get_requirements(&self) -> Vec<SubsystemSUID> {
        Vec::new()
    }

    /// Returns true if this command should run when disabled.
    fn run_when_disabled(&self) -> bool {
        false
    }

    /// Returns true if this command should cancel incoming commands.
    fn cancel_incoming(&self) -> bool {
        false
    }

    /// Returns the name of this command.
    fn get_name(&self) -> String {
        String::from_str("unnamed")
    }
}

/// The hooks of a command that holds no state of its own.
///
/// All methods take `&self`, so one value can back any number of
/// [`ConstCommand`]s and can live in a `static`. Every method has a default:
/// a hook that is not overridden does nothing, and a command whose
/// `is_finished` is not overridden runs until it is cancelled.
pub trait ConstHooks {
    fn init(&self) {
    }

    fn periodic(&self, _period: Duration) {
    }

    fn end(&self, _interrupted: bool) {
    }

    fn is_finished(&self) -> bool {
        false
    }
}

/// The name of a command that was given none.
pub open spec fn default_name() -> Seq<char> {
    "unnamed"@
}

/// One call of a lifecycle hook, as the command that is called sees it: the
/// hook, the period or flag it was handed, and for `is_finished` the answer
/// that went back.
///
/// The scheduler's history keeps the same calls without the period, as
/// [`HookCall`](crate::history::HookCall)s.
pub enum LifecycleCall {
    /// `init`.
    Init,
    /// `periodic`, with the period handed in.
    Periodic(Duration),
    /// `is_finished`, with the answer handed back.
    IsFinished(bool),
    /// `end`, with the flag handed in: whether the command was cut short.
    End(bool),
}

/// The calls that one cycle makes on a command: `periodic` with the period,
/// `is_finished`, and `end(false)` exactly when the answer was that it has
/// finished.
pub open spec fn cycle_calls(period: Duration, finished: bool) -> Seq<LifecycleCall> {
    if finished {
        seq![
            LifecycleCall::Periodic(period),
            LifecycleCall::IsFinished(true),
            LifecycleCall::End(false),
        ]
    } else {
        seq![LifecycleCall::Periodic(period), LifecycleCall::IsFinished(false)]
    }
}

/// The calls of one cycle are the cycle's three steps, appended one by one.
pub proof fn lemma_cycle_calls(before: Seq<LifecycleCall>, period: Duration)
    ensures
        before.push(LifecycleCall::Periodic(period)).push(LifecycleCall::IsFinished(true)).push(
            LifecycleCall::End(false),
        ) == before + cycle_calls(period, true),
        before.push(LifecycleCall::Periodic(period)).push(LifecycleCall::IsFinished(false))
            == before + cycle_calls(period, false),
{
    assert(before.push(LifecycleCall::Periodic(period)).push(LifecycleCall::IsFinished(true)).push(
        LifecycleCall::End(false),
    ) =~= before + cycle_calls(period, true));
    assert(before.push(LifecycleCall::Periodic(period)).push(LifecycleCall::IsFinished(false))
        =~= before + cycle_calls(period, false));
}

/// A command assembled from closures. Each hook may be absent.
pub struct SimpleCommand {
    pub(crate) init: Option<Box<dyn InitHook>>,
    pub(crate) periodic: Option<Box<dyn PeriodicHook>>,
    pub(crate) end: Option<Box<dyn EndHook>>,
    pub(crate) is_finished: Option<Box<dyn FinishedHook>>,
    pub(crate) requirements: Vec<SubsystemSUID>,
    pub(crate) calls: Ghost<Seq<LifecycleCall>>,
}

impl SimpleCommand {
    pub closed spec fn has_init(&self) -> bool {
        self.init is Some
    }

    pub closed spec fn has_periodic(&self) -> bool {
        self.periodic is Some
    }

    pub closed spec fn has_end(&self) -> bool {
        self.end is Some
    }

    pub closed spec fn has_is_finished(&self) -> bool {
        self.is_finished is Some
    }

    /// The requirements in the order in which they were declared.
    pub closed spec fn requirement_list(&self) -> Seq<SubsystemSUID> {
        self.requirements@
    }

    /// The `init` hook, if one is set.
    pub closed spec fn init_hook(&self) -> Option<Box<dyn InitHook>> {
        self.init
    }

    /// The `periodic` hook, if one is set.
    pub closed spec fn periodic_hook(&self) -> Option<Box<dyn PeriodicHook>> {
        self.periodic
    }

    /// The `end` hook, if one is set.
    pub closed spec fn end_hook(&self) -> Option<Box<dyn EndHook>> {
        self.end
    }

    /// The finish predicate, if one is set.
    pub closed spec fn finish_hook(&self) -> Option<Box<dyn FinishedHook>> {
        self.is_finished
    }

    /// The lifecycle calls made on this command so far, oldest first. A call
    /// is recorded whether or not a closure is set for it.
    pub closed spec fn calls(&self) -> Seq<LifecycleCall> {
        self.calls@
    }

    /// What no hook changes: which hooks are set, and the requirements.
    pub open spec fn same_outline(&self, other: &Self) -> bool {
        &&& self.has_init() == other.has_init()
        &&& self.has_periodic() == other.has_periodic()
        &&& self.has_end() == other.has_end()
        &&& self.has_is_finished() == other.has_is_finished()
        &&& self.requirement_list() == other.requirement_list()
    }

    /// Whether `self` is what `call` makes of `before`: the call is on
    /// record, what was declared stands, and a command without a finish
    /// predicate has not answered that it finished.
    pub open spec fn follows(&self, before: &Self, call: LifecycleCall) -> bool {
        &&& self.same_outline(before)
        &&& self.calls() == before.calls().push(call)
        &&& call == LifecycleCall::IsFinished(true) ==> before.has_is_finished()
    }

    /// A command of the hooks given.
    pub(crate) fn assemble(
        init: Option<Box<dyn InitHook>>,
        periodic: Option<Box<dyn PeriodicHook>>,
        end: Option<Box<dyn EndHook>>,
        is_finished: Option<Box<dyn FinishedHook>>,
        requirements: Vec<SubsystemSUID>,
    ) -> (command: Self)
        ensures
            command == (SimpleCommand {
                init,
                periodic,
                end,
                is_finished,
                requirements,
                calls: Ghost(Seq::empty()),
            }),
            command.calls() == Seq::<LifecycleCall>::empty(),
            command.init_hook() == init,
            command.periodic_hook() == periodic,
            command.end_hook() == end,
            command.finish_hook() == is_finished,
            command.has_init() == init is Some,
            command.has_periodic() == periodic is Some,
            command.has_end() == end is Some,
            command.has_is_finished() == is_finished is Some,
            command.requirement_list() == requirements@,
    {
        SimpleCommand { init, periodic, end, is_finished, requirements, calls: Ghost(Seq::empty()) }
    }

    /// Runs the init hook, if one is set.
    pub fn init(&mut self)
        ensures
            final(self).follows(old(self), LifecycleCall::Init),
    {
        self.calls = Ghost(self.calls@.push(LifecycleCall::Init));
        match &mut self.init {
            Some(hook) => hook.on_init(),
            None => {},
        }
    }

    /// Runs the periodic hook, if one is set, and hands it `period`.
    pub fn periodic(&mut self, period: Duration)
        ensures
            final(self).follows(old(self), LifecycleCall::Periodic(period)),
    {
        self.calls = Ghost(self.calls@.push(LifecycleCall::Periodic(period)));
        match &mut self.periodic {
            Some(hook) => hook.on_periodic(period),
            None => {},
        }
    }

    /// Runs the end hook, if one is set, and hands it `interrupted`.
    pub fn end(&mut self, interrupted: bool)
        ensures
            final(self).follows(old(self), LifecycleCall::End(interrupted)),
    {
        self.calls = Ghost(self.calls@.push(LifecycleCall::End(interrupted)));
        match &mut self.end {
            Some(hook) => hook.on_end(interrupted),
            None => {},
        }
    }

    /// Asks the finish predicate. A command without one never finishes.
    pub fn is_finished(&mut self) -> (finished: bool)
        ensures
            final(self).follows(old(self), LifecycleCall::IsFinished(finished)),
    {
        let finished = match &mut self.is_finished {
            Some(hook) => hook.on_is_finished(),
            None => false,
        };
        self.calls = Ghost(self.calls@.push(LifecycleCall::IsFinished(finished)));
        finished
    }

    /// A copy of the declared requirements.
    pub fn get_requirements(&self) -> (list: Vec<SubsystemSUID>)
        ensures
            list@ == self.requirement_list(),
    {
        self.requirements.clone()
    }
}

/// A stateless command: shared hooks and a borrowed requirement slice.
#[derive(Clone, Copy)]
pub struct ConstCommand {
    hooks: &'static dyn ConstHooks,
    requirements: &'static [SubsystemSUID],
    calls: Ghost<Seq<LifecycleCall>>,
}

impl ConstCommand {
    /// The lifecycle calls made on this command so far, oldest first.
    pub closed spec fn calls(&self) -> Seq<LifecycleCall> {
        self.calls@
    }

    /// The hooks that the command shares.
    pub closed spec fn hook_set(&self) -> &'static dyn ConstHooks {
        self.hooks
    }

    /// The requirements in the order of the borrowed slice.
    pub closed spec fn requirement_list(&self) -> Seq<SubsystemSUID> {
        self.requirements@
    }

    /// What no hook changes: the hooks and the requirements.
    pub open spec fn same_outline(&self, other: &Self) -> bool {
        &&& self.hook_set() == other.hook_set()
        &&& self.requirement_list() == other.requirement_list()
    }

    /// Whether `self` is what `call` makes of `before`: the call is on
    /// record, and hooks and requirements stand.
    pub open spec fn follows(&self, before: &Self, call: LifecycleCall) -> bool {
        &&& self.same_outline(before)
        &&& self.calls() == before.calls().push(call)
    }

    /// A command of `hooks` that needs `requirements`, not yet called.
    pub fn new(hooks: &'static dyn ConstHooks, requirements: &'static [SubsystemSUID]) -> (command:
        Self)
        ensures
            command.requirement_list() == requirements@,
            command.calls() == Seq::<LifecycleCall>::empty(),
    {
        ConstCommand { hooks, requirements, calls: Ghost(Seq::empty()) }
    }

    /// Runs the shared `init` hook.
    pub fn init(&mut self)
        ensures
            final(self).follows(old(self), LifecycleCall::Init),
    {
        self.calls = Ghost(self.calls@.push(LifecycleCall::Init));
        self.hooks.init();
    }

    /// Runs the shared `periodic` hook and hands it `period`.
    pub fn periodic(&mut self, period: Duration)
        ensures
            final(self).follows(old(self), LifecycleCall::Periodic(period)),
    {
        self.calls = Ghost(self.calls@.push(LifecycleCall::Periodic(period)));
        self.hooks.periodic(period);
    }

    /// Runs the shared `end` hook and hands it `interrupted`.
    pub fn end(&mut self, interrupted: bool)
        ensures
            final(self).follows(old(self), LifecycleCall::End(interrupted)),
    {
        self.calls = Ghost(self.calls@.push(LifecycleCall::End(interrupted)));
        self.hooks.end(interrupted);
    }

    /// Asks the shared `is_finished` hook and hands its answer on.
    pub fn is_finished(&mut self) -> (finished: bool)
        ensures
            final(self).follows(old(self), LifecycleCall::IsFinished(finished)),
    {
        let finished = self.hooks.is_finished();
        self.calls = Ghost(self.calls@.push(LifecycleCall::IsFinished(finished)));
        finished
    }

    /// A copy of the borrowed requirements.
    pub fn get_requirements(&self) -> (list: Vec<SubsystemSUID>)
        ensures
            list@ == self.requirement_list(),
    {
        let mut list: Vec<SubsystemSUID> = Vec::new();
        let mut i: usize = 0;
        while i < self.requirements.len()
            invariant
                i <= self.requirements@.len(),
                list@ == self.requirements@.take(i as int),
            decreases self.requirements@.len() - i,
        {
            list.push(self.requirements[i]);
            proof {
                assert(self.requirements@.take(i + 1) =~= self.requirements@.take(i as int).push(
                    self.requirements@[i as int],
                ));
            }
            i += 1;
        }
        proof {
            assert(self.requirements@.take(self.requirements@.len() as int) =~= self.requirements@);
        }
        list
    }
}

/// A command that finishes once a set time has passed since its `init`.
pub struct WaitCommand {
    start_instant: Option<Instant>,
    duration: Duration,
    calls: Ghost<Seq<LifecycleCall>>,
    reading: Ghost<Option<Duration>>,
}

impl WaitCommand {
    /// How long the command waits.
    pub closed spec fn duration(&self) -> Duration {
        self.duration
    }

    /// Whether `init` has recorded a start instant.
    pub closed spec fn started(&self) -> bool {
        self.start_instant is Some
    }

    /// The lifecycle calls made on this command so far, oldest first.
    pub closed spec fn calls(&self) -> Seq<LifecycleCall> {
        self.calls@
    }

    /// The time since `init` that the clock gave when `is_finished` was
    /// last asked, if it has been asked.
    pub closed spec fn last_reading(&self) -> Option<Duration> {
        self.reading@
    }

    /// Whether the time read last has reached the duration.
    pub open spec fn time_is_up(&self) -> bool {
        self.last_reading() matches Some(elapsed) && duration_nanos(elapsed) >= duration_nanos(
            self.duration(),
        )
    }

    /// Whether `self` is what `call` makes of `before`: the call is on
    /// record, the duration stands, `init` starts the wait and nothing stops
    /// it. `is_finished` reads the clock, and its answer is whether the
    /// time read has reached the duration; no other call reads the clock.
    pub open spec fn follows(&self, before: &Self, call: LifecycleCall) -> bool {
        &&& self.duration() == before.duration()
        &&& self.started() == (before.started() || call is Init)
        &&& self.calls() == before.calls().push(call)
        &&& match call {
            LifecycleCall::IsFinished(finished) => self.last_reading() is Some && finished
                == self.time_is_up(),
            _ => self.last_reading() == before.last_reading(),
        }
    }

    /// A wait of `duration` that has not started.
    pub fn new(duration: Duration) -> (wait: Self)
        ensures
            wait.duration() == duration,
            !wait.started(),
            wait.calls() == Seq::<LifecycleCall>::empty(),
            wait.last_reading() is None,
    {
        WaitCommand {
            duration,
            start_instant: None,
            calls: Ghost(Seq::empty()),
            reading: Ghost(None),
        }
    }

    /// Records the current instant as the start of the wait.
    pub fn init(&mut self)
        ensures
            final(self).follows(old(self), LifecycleCall::Init),
    {
        self.calls = Ghost(self.calls@.push(LifecycleCall::Init));
        self.start_instant = Some(instant_now());
    }

    /// A wait does nothing while it runs.
    pub fn periodic(&mut self, period: Duration)
        ensures
            final(self).follows(old(self), LifecycleCall::Periodic(period)),
    {
        self.calls = Ghost(self.calls@.push(LifecycleCall::Periodic(period)));
    }

    /// A wait does nothing when it ends.
    pub fn end(&mut self, interrupted: bool)
        ensures
            final(self).follows(old(self), LifecycleCall::End(interrupted)),
    {
        self.calls = Ghost(self.calls@.push(LifecycleCall::End(interrupted)));
    }

    /// The rule of the wait: it is over once the elapsed time has reached the
    /// duration.
    pub fn finished_after(&self, elapsed: Duration) -> (finished: bool)
        ensures
            finished == (duration_nanos(elapsed) >= duration_nanos(self.duration())),
    {
        duration_at_least(elapsed, self.duration)
    }

    /// Reads the clock and applies [`Self::finished_after`] to the time since
    /// `init`. The time read is kept as [`Self::last_reading`].
    pub fn is_finished(&mut self) -> (finished: bool)
        requires
            old(self).started(),
        ensures
            final(self).follows(old(self), LifecycleCall::IsFinished(finished)),
    {
        let start = self.start_instant.unwrap();
        let elapsed = instant_elapsed(&start);
        let finished = self.finished_after(elapsed);
        self.calls = Ghost(self.calls@.push(LifecycleCall::IsFinished(finished)));
        self.reading = Ghost(Some(elapsed));
        finished
    }

    pub fn get_requirements(&self) -> (list: Vec<SubsystemSUID>)
        ensures
            list@.len() == 0,
    {
        Vec::new()
    }

    /// The name of a wait: `TimedCommand(` the duration as `Debug` prints it `)`.
    pub open spec fn name(&self) -> Seq<char> {
        "TimedCommand("@ + duration_debug_text(duration_nanos(self.duration())) + ")"@
    }

    pub fn get_name(&self) -> (name: String)
        ensures
            name@ == self.name(),
    {
        let mut name = String::from_str("TimedCommand(");
        let text = duration_debug(self.duration);
        name.append(text.as_str());
        name.append(")");
        name
    }
}

/// A command written by the client as a type of its own.
///
/// What the implementation declares (requirements, the two flags, the name)
/// is asked once, when the command is wrapped, and kept: admission decides on
/// what was declared then.
pub struct CustomCommand {
    command: Box<dyn CommandTrait>,
    requirements: Vec<SubsystemSUID>,
    cancel_incoming: bool,
    run_when_disabled: bool,
    name: String,
    calls: Ghost<Seq<LifecycleCall>>,
}

impl CustomCommand {
    pub closed spec fn requirement_list(&self) -> Seq<SubsystemSUID> {
        self.requirements@
    }

    pub closed spec fn cancels_incoming(&self) -> bool {
        self.cancel_incoming
    }

    pub closed spec fn runs_when_disabled(&self) -> bool {
        self.run_when_disabled
    }

    pub closed spec fn name(&self) -> Seq<char> {
        self.name@
    }

    /// The lifecycle calls made on this command so far, oldest first: each
    /// was handed on to the implementation.
    pub closed spec fn calls(&self) -> Seq<LifecycleCall> {
        self.calls@
    }

    /// What no hook changes: everything that was declared.
    pub open spec fn same_outline(&self, other: &Self) -> bool {
        &&& self.requirement_list() == other.requirement_list()
        &&& self.cancels_incoming() == other.cancels_incoming()
        &&& self.runs_when_disabled() == other.runs_when_disabled()
        &&& self.name() == other.name()
    }

    /// Whether `self` is what `call` makes of `before`: the call is on
    /// record, and what was declared stands.
    pub open spec fn follows(&self, before: &Self, call: LifecycleCall) -> bool {
        &&& self.same_outline(before)
        &&& self.calls() == before.calls().push(call)
    }

    /// Wraps an implementation together with what it declares.
    pub fn with_declaration(
        command: Box<dyn CommandTrait>,
        requirements: Vec<SubsystemSUID>,
        cancel_incoming: bool,
        run_when_disabled: bool,
        name: String,
    ) -> (custom: Self)
        ensures
            custom.requirement_list() == requirements@,
            custom.cancels_incoming() == cancel_incoming,
            custom.runs_when_disabled() == run_when_disabled,
            custom.name() == name@,
            custom.calls() == Seq::<LifecycleCall>::empty(),
    {
        CustomCommand {
            command,
            requirements,
            cancel_incoming,
            run_when_disabled,
            name,
            calls: Ghost(Seq::empty()),
        }
    }

    /// Wraps an implementation, asking it what it declares. What it answers
    /// is its own affair; the command that comes back has not been called.
    pub fn new(command: Box<dyn CommandTrait>) -> (custom: Self)
        ensures
            custom.calls() == Seq::<LifecycleCall>::empty(),
    {
        let requirements = command.get_requirements();
        let cancel_incoming = command.cancel_incoming();
        let run_when_disabled = command.run_when_disabled();
        let name = command.get_name();
        Self::with_declaration(command, requirements, cancel_incoming, run_when_disabled, name)
    }

    /// Hands `init` on to the implementation.
    pub fn init(&mut self)
        ensures
            final(self).follows(old(self), LifecycleCall::Init),
    {
        self.calls = Ghost(self.calls@.push(LifecycleCall::Init));
        self.command.init();
    }

    /// Hands `periodic` on to the implementation, with `period`.
    pub fn periodic(&mut self, period: Duration)
        ensures
            final(self).follows(old(self), LifecycleCall::Periodic(period)),
    {
        self.calls = Ghost(self.calls@.push(LifecycleCall::Periodic(period)));
        self.command.periodic(period);
    }

    /// Hands `end` on to the implementation, with `interrupted`.
    pub fn end(&mut self, interrupted: bool)
        ensures
            final(self).follows(old(self), LifecycleCall::End(interrupted)),
    {
        self.calls = Ghost(self.calls@.push(LifecycleCall::End(interrupted)));
        self.command.end(interrupted);
    }

    /// Asks the implementation and hands its answer on.
    pub fn is_finished(&mut self) -> (finished: bool)
        ensures
            final(self).follows(old(self), LifecycleCall::IsFinished(finished)),
    {
        let finished = self.command.is_finished();
        self.calls = Ghost(self.calls@.push(LifecycleCall::IsFinished(finished)));
        finished
    }

    pub fn get_requirements(&self) -> (list: Vec<SubsystemSUID>)
        ensures
            list@ == self.requirement_list(),
    {
        self.requirements.clone()
    }

    pub fn cancel_incoming(&self) -> (refuses: bool)
        ensures
            refuses == self.cancels_incoming(),
    {
        self.cancel_incoming
    }

    pub fn run_when_disabled(&self) -> (runs: bool)
        ensures
            runs == self.runs_when_disabled(),
    {
        self.run_when_disabled
    }

    pub fn get_name(&self) -> (name: String)
        ensures
            name@ == self.name(),
    {
        self.name.clone()
    }
}

} // verus!
