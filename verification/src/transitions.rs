//! How the state of the scheduler changes.
//!
//! Every operation of the scheduler is a function from state to state,
//! defined here, and the executable scheduler is proved to compute exactly
//! these functions.
//!
//! Client hooks are outside the model. Where an operation runs a hook, the
//! function takes what the hook did as an argument: the command as the hook
//! left it, the answer of `is_finished`, the value of a condition. A hook
//! may change anything about a command except what the command declares.

use std::time::Duration;
use vstd::prelude::*;

use crate::commands::Command;
use crate::conditions::ConditionalScheduler;
use crate::history::{events_of, HookCall};
use crate::leaves::LifecycleCall;
use crate::time::duration_nanos;
use crate::requirement::SubsystemSUID;
use crate::state::{CommandIndex, SchedulerState, Slot, SubsystemRun};

verus! {

/// What a visit does to a command.
#[derive(Debug, Clone, Copy, PartialEq, Eq, Structural)]
pub enum Visit {
    /// The command is marked: it is ended as interrupted and nothing else.
    Interrupt,
    /// The command has not started: it is initialised, then run.
    Start,
    /// The command is running: it is run.
    Continue,
}

impl Visit {
    /// What a visit does to the command in `slot`.
    pub open spec fn planned(slot: Slot) -> Visit {
        if slot.interrupt == Some(true) {
            Visit::Interrupt
        } else if !slot.initialized {
            Visit::Start
        } else {
            Visit::Continue
        }
    }

    /// Decides what a visit does to the command in `slot`.
    pub fn plan(slot: &Slot) -> (visit: Visit)
        ensures
            visit == Self::planned(*slot),
    {
        match slot.interrupt {
            Some(true) => Visit::Interrupt,
            _ => if slot.initialized {
                Visit::Continue
            } else {
                Visit::Start
            },
        }
    }

    /// The hooks that the visit calls, in order; `finished` is what
    /// `is_finished` answers, if it is asked.
    pub open spec fn calls(self, finished: bool) -> Seq<HookCall> {
        match self {
            Visit::Interrupt => seq![HookCall::End(true)],
            Visit::Start => if finished {
                seq![
                    HookCall::Init,
                    HookCall::Periodic,
                    HookCall::IsFinished(true),
                    HookCall::End(false),
                ]
            } else {
                seq![HookCall::Init, HookCall::Periodic, HookCall::IsFinished(false)]
            },
            Visit::Continue => if finished {
                seq![HookCall::Periodic, HookCall::IsFinished(true), HookCall::End(false)]
            } else {
                seq![HookCall::Periodic, HookCall::IsFinished(false)]
            },
        }
    }

    /// Whether the visit calls `init`.
    pub open spec fn calls_init(self) -> bool {
        self is Start
    }

    /// Whether the visit calls `periodic` and `is_finished`.
    pub open spec fn runs(self) -> bool {
        !(self is Interrupt)
    }

    /// Whether the visit ends the command, given what `is_finished` answered
    /// if it was asked.
    pub open spec fn ends(self, finished: bool) -> bool {
        self is Interrupt || finished
    }

    /// The flag handed to `end`: true exactly when the command is cut short.
    pub open spec fn end_flag(self) -> bool {
        self is Interrupt
    }

    /// Whether `left` is what the calls of the visit make of `command`, if
    /// `is_finished`, where it is asked, answers `finished`. A command that
    /// is cut short follows by `end(true)`. A command that starts follows by
    /// `init` and then by one cycle that is handed no elapsed time. A
    /// command that runs on follows by one cycle.
    pub open spec fn leaves(self, command: &Command, left: &Command, finished: bool) -> bool {
        match self {
            Visit::Interrupt => left.follows(command, LifecycleCall::End(true)),
            Visit::Start => exists|started: Command, period: Duration|
                {
                    &&& started.follows(command, LifecycleCall::Init)
                    &&& duration_nanos(period) == 0
                    &&& #[trigger] left.cycled(&started, period, finished)
                },
            Visit::Continue => exists|period: Duration| #[trigger]
                left.cycled(command, period, finished),
        }
    }
}

impl SchedulerState {
    /// The same state after `calls` have been made on the command under
    /// `index`.
    pub open spec fn logged(self, index: CommandIndex, calls: Seq<HookCall>) -> Self {
        SchedulerState { history: self.history + events_of(index, calls), ..self }
    }

    /// The same state with `slot` in the place `index`.
    pub open spec fn with_slot(self, index: CommandIndex, slot: Slot) -> Self {
        SchedulerState { slots: self.slots.insert(index, slot), ..self }
    }

    /// The same state after a hook has left `command` under `index`.
    pub open spec fn with_command(self, index: CommandIndex, command: Command) -> Self {
        self.with_slot(index, self.slot(index).holding(command))
    }

    /// Whether `position` is the first place of the command arena that holds
    /// no command, be it a vacant place or the end of the arena.
    pub open spec fn first_free(self, position: usize) -> bool {
        &&& !self.holds(CommandIndex::Command(position))
        &&& forall|k: usize| k < position ==> #[trigger] self.holds(CommandIndex::Command(k))
    }

    /// The handle that the next command added will get.
    pub open spec fn next_handle(self) -> CommandIndex {
        CommandIndex::Command(choose|position: usize| self.first_free(position))
    }

    /// The state after `command` has been put in the arena: not yet
    /// admitted, not yet run.
    pub open spec fn added(self, command: Command) -> Self {
        self.with_slot(self.next_handle(), Slot::fresh(Some(command)))
    }

    /// Whether `owner` owns one of the subsystems in `needs`.
    pub open spec fn incumbent(self, needs: Set<SubsystemSUID>, owner: CommandIndex) -> bool {
        exists|suid: SubsystemSUID| needs.contains(suid) && self.owners.contains_pair(suid, owner)
    }

    /// Whether the command under `index`, which needs `needs`, is refused:
    /// one of the subsystems is owned by another command, not a default,
    /// that refuses to be cancelled. A command does not refuse itself.
    pub open spec fn refuses(self, needs: Set<SubsystemSUID>, index: CommandIndex) -> bool {
        exists|owner: CommandIndex|
            owner != index && self.incumbent(needs, owner) && !owner.is_default()
                && self.command_at(owner).cancels_incoming()
    }

    /// Admission of a command that needs nothing: it runs as an orphan.
    pub open spec fn orphan_marked(self, index: CommandIndex) -> Self {
        self.with_slot(
            index,
            Slot { interrupt: Some(false), orphaned: true, ..self.slot(index) },
        )
    }

    /// Admission of a command that is not refused: every scheduled command
    /// that owns one of the subsystems it needs is marked to be interrupted
    /// (a default is displaced without a mark), and the command becomes the
    /// owner of all it needs.
    pub open spec fn claimed(self, index: CommandIndex) -> Self {
        let needs = self.needs(index);
        SchedulerState {
            slots: Map::new(
                |other: CommandIndex| self.in_range(other),
                |other: CommandIndex|
                    if other == index {
                        self.slot(other).marked(false)
                    } else if self.incumbent(needs, other) && !other.is_default() {
                        self.slot(other).marked(true)
                    } else {
                        self.slot(other)
                    },
            ),
            owners: Map::new(
                |suid: SubsystemSUID| self.owners.contains_key(suid) || needs.contains(suid),
                |suid: SubsystemSUID|
                    if needs.contains(suid) {
                        index
                    } else {
                        self.owners[suid]
                    },
            ),
            ..self
        }
    }

    /// The end of a command: it is no longer tracked and owns nothing. The
    /// place of an ordinary command is emptied; a default or preserved
    /// command stays in its place.
    pub open spec fn reaped(self, index: CommandIndex) -> Self {
        SchedulerState {
            slots: self.slots.insert(index, self.slot(index).reaped(index)),
            owners: Map::new(
                |suid: SubsystemSUID| self.owners.contains_key(suid) && self.owners[suid] != index,
                |suid: SubsystemSUID| self.owners[suid],
            ),
            ..self
        }
    }

    /// Whether admission refuses the command under `index`.
    pub open spec fn refuses_admission(self, index: CommandIndex) -> bool {
        self.needs(index) != Set::<SubsystemSUID>::empty() && self.refuses(
            self.needs(index),
            index,
        )
    }

    /// Admission of the command under `index`, when it is not refused.
    pub open spec fn admitted(self, index: CommandIndex) -> Self {
        if self.needs(index) == Set::<SubsystemSUID>::empty() {
            self.orphan_marked(index)
        } else {
            self.claimed(index)
        }
    }

    /// Whether `periods` can be what the periodic hooks of the subsystems
    /// are handed, in order of registration: one period each, and no time
    /// for a hook that has not run before.
    pub open spec fn periods_fit(self, periods: Seq<Duration>) -> bool {
        &&& periods.len() == self.registered.len()
        &&& forall|i: int|
            0 <= i < self.hooks.len() && i < periods.len() && !self.hooks[i] ==> duration_nanos(
                #[trigger] periods[i],
            ) == 0
    }

    /// The calls of one round of subsystem hooks: the registered
    /// subsystems, in order of registration, each with its period of
    /// `periods`.
    pub open spec fn round(self, periods: Seq<Duration>) -> Seq<SubsystemRun> {
        Seq::new(
            periods.len(),
            |i: int| SubsystemRun { suid: self.registered[i], period: periods[i] },
        )
    }

    /// The periodic hook of every registered subsystem is called, in order
    /// of registration, and is handed its period of `periods`. Every hook
    /// has then run.
    pub open spec fn subsystems_run(self, periods: Seq<Duration>) -> Self {
        SchedulerState {
            subsystem_runs: self.subsystem_runs + self.round(periods),
            hooks: Seq::new(self.hooks.len(), |i: int| true),
            ..self
        }
    }

    /// Every subsystem without an owner is given to its default command,
    /// which is tracked from then on if it was not.
    pub open spec fn defaults_restored(self) -> Self {
        SchedulerState {
            slots: Map::new(
                |index: CommandIndex| self.in_range(index),
                |index: CommandIndex|
                    if self.slot(index).interrupt is None && (exists|suid: SubsystemSUID|
                        self.defaults.contains_pair(suid, index) && !self.owners.contains_key(
                            suid,
                        )) {
                        self.slot(index).marked(false)
                    } else {
                        self.slot(index)
                    },
            ),
            owners: self.defaults.union_prefer_right(self.owners),
            ..self
        }
    }

    /// Registration of the subsystem `suid` with `default_command`.
    pub open spec fn registered_with(
        self,
        suid: SubsystemSUID,
        default_command: Option<Command>,
    ) -> Self {
        let index = CommandIndex::DefaultCommand(self.registered.len() as usize);
        SchedulerState {
            slots: self.slots.insert(index, Slot::fresh(default_command)),
            defaults: self.defaults.insert(suid, index),
            registered: self.registered.push(suid),
            hooks: self.hooks.push(false),
            ..self
        }
    }

    /// Whether the preserved arena has exactly `position` places.
    pub open spec fn preserved_end(self, position: usize) -> bool {
        forall|k: usize| #[trigger] self.in_range(CommandIndex::PreservedCommand(k)) <==> k < position
    }

    /// The handle that the next conditional scheduler's command will get:
    /// the end of the preserved arena.
    pub open spec fn next_preserved(self) -> CommandIndex {
        CommandIndex::PreservedCommand(
            choose|position: usize| self.preserved_end(position),
        )
    }

    /// Registration of a conditional scheduler: its command goes to a new
    /// preserved place, and the scheduler keeps the handle.
    pub open spec fn with_condition(self, scheduler: ConditionalScheduler) -> Self {
        let index = self.next_preserved();
        SchedulerState {
            slots: self.slots.insert(index, Slot::fresh(scheduler.held_command())),
            conditions: self.conditions.push(scheduler.registered_as(index)),
            ..self
        }
    }

    /// The state after a visit to the place `index`.
    ///
    /// A place that holds no tracked command is passed over. Otherwise the
    /// hooks that the [plan](Visit::planned) names are called, which leaves
    /// the command as `left`; `finished` is what `is_finished` answers if
    /// it is asked. A command that ends is no longer tracked; one that runs
    /// on is noted as initialised.
    pub open spec fn visited(self, index: CommandIndex, left: Command, finished: bool) -> Self {
        if !self.watched(index) {
            self
        } else {
            let plan = Visit::planned(self.slot(index));
            let ran = self.logged(index, plan.calls(finished));
            if plan.ends(finished) {
                ran.with_command(index, left).reaped(index)
            } else {
                ran.with_slot(index, Slot { initialized: true, ..self.slot(index).holding(left) })
            }
        }
    }

    /// Whether `left` can be how the hooks of a visit leave the command
    /// under `index`: a hook changes nothing that a command declares, a
    /// command that runs on is ready for its next cycle, and the command has
    /// received the calls of the visit.
    pub open spec fn visit_fits(self, index: CommandIndex, left: Command, finished: bool) -> bool {
        self.watched(index) ==> {
            &&& left.same_declaration(&self.command_at(index))
            &&& !Visit::planned(self.slot(index)).ends(finished) ==> left.ready()
            &&& Visit::planned(self.slot(index)).leaves(&self.command_at(index), &left, finished)
        }
    }

    /// The state after the command under `index` has been ended as
    /// interrupted, which leaves it as `left`, and is no longer tracked.
    pub open spec fn retired(self, index: CommandIndex, left: Command) -> Self {
        self.logged(index, seq![HookCall::End(true)]).with_command(index, left).reaped(index)
    }

    /// The state after `command` has been taken in and has gone through
    /// admission: admitted, or refused, ended as interrupted, and gone.
    pub open spec fn scheduled(self, command: Command) -> Self {
        let index = self.next_handle();
        let taken = self.added(command);
        if taken.refuses_admission(index) {
            taken.logged(index, seq![HookCall::End(true)]).reaped(index)
        } else {
            taken.admitted(index)
        }
    }

    /// The state after `commands` have been scheduled one after the other.
    pub open spec fn taken_in(self, commands: Seq<Command>) -> Self
        decreases commands.len(),
    {
        if commands.len() == 0 {
            self
        } else {
            self.taken_in(commands.drop_last()).scheduled(commands.last())
        }
    }

    /// The state after `schedulers` have been registered one after the
    /// other.
    pub open spec fn with_conditions(self, schedulers: Seq<ConditionalScheduler>) -> Self
        decreases schedulers.len(),
    {
        if schedulers.len() == 0 {
            self
        } else {
            self.with_conditions(schedulers.drop_last()).with_condition(schedulers.last())
        }
    }

    /// Admission of the command under `index`: admitted, or refused and
    /// retired as `left`.
    pub open spec fn admitted_or_retired(self, index: CommandIndex, left: Command) -> Self {
        if self.refuses_admission(index) {
            self.retired(index, left)
        } else {
            self.admitted(index)
        }
    }

    /// The state after every conditional scheduler has seen its sample.
    pub open spec fn polled(self, samples: Seq<bool>) -> Self {
        SchedulerState {
            conditions: Seq::new(
                self.conditions.len(),
                |k: int| self.conditions[k].after_sample(samples[k]),
            ),
            ..self
        }
    }

    /// The handles that the first `count` conditional schedulers yield on
    /// `samples`, in order.
    pub open spec fn fired(self, samples: Seq<bool>, count: nat) -> Seq<CommandIndex>
        decreases count,
    {
        if count == 0 {
            Seq::empty()
        } else {
            let before = self.fired(samples, (count - 1) as nat);
            match self.conditions[count - 1].yields(samples[count - 1]) {
                Some(handle) => before.push(handle),
                None => before,
            }
        }
    }

    /// The state after the commands under `handles` have gone through
    /// admission one after the other; `lefts` is how the `end` hook left
    /// each of them, which matters for those that were refused.
    pub open spec fn admitted_all(self, handles: Seq<CommandIndex>, lefts: Seq<Command>) -> Self
        decreases handles.len(),
    {
        if handles.len() == 0 {
            self
        } else {
            self.admitted_all(handles.drop_last(), lefts.drop_last()).admitted_or_retired(
                handles.last(),
                lefts.last(),
            )
        }
    }

    /// Whether `left` can be how admission leaves the command under
    /// `index`: what the command declares stands, and a command that is
    /// refused follows by `end(true)`.
    pub open spec fn left_fits(self, index: CommandIndex, left: Command) -> bool {
        &&& left.same_declaration(&self.command_at(index))
        &&& self.refuses_admission(index) ==> left.follows(
            &self.command_at(index),
            LifecycleCall::End(true),
        )
    }

    /// Whether `lefts` can be how admission left the commands under
    /// `handles`, one after the other.
    pub open spec fn lefts_fit(self, handles: Seq<CommandIndex>, lefts: Seq<Command>) -> bool
        decreases handles.len(),
    {
        &&& lefts.len() == handles.len()
        &&& handles.len() > 0 ==> {
            &&& self.lefts_fit(handles.drop_last(), lefts.drop_last())
            &&& self.admitted_all(handles.drop_last(), lefts.drop_last()).left_fits(
                handles.last(),
                lefts.last(),
            )
        }
    }

    /// Whether `samples` can be what the conditions answer, in order of
    /// registration: each is a value that its condition can have.
    pub open spec fn samples_fit(self, samples: Seq<bool>) -> bool {
        &&& samples.len() == self.conditions.len()
        &&& forall|k: int|
            0 <= k < samples.len() ==> (#[trigger] self.conditions[k]).may_sample(samples[k])
    }

    /// The third phase of a tick takes the scheduler from `self` to `after`:
    /// every conditional scheduler sees a sample, a value of its condition,
    /// and the commands whose edge fires go through admission in the order
    /// of their schedulers.
    pub open spec fn conditions_run(self, after: SchedulerState) -> bool {
        exists|samples: Seq<bool>, lefts: Seq<Command>|
            {
                &&& self.samples_fit(samples)
                &&& self.lefts_fit(self.fired(samples, self.conditions.len()), lefts)
                &&& after == #[trigger] self.polled(samples).admitted_all(
                    self.fired(samples, self.conditions.len()),
                    lefts,
                )
            }
    }

    /// The state after the places in `order` have been visited one after
    /// the other; `lefts` and `answers` are how the hooks left each command
    /// and what its `is_finished` answered.
    pub open spec fn visited_all(
        self,
        order: Seq<CommandIndex>,
        lefts: Seq<Command>,
        answers: Seq<bool>,
    ) -> Self
        decreases order.len(),
    {
        if order.len() == 0 {
            self
        } else {
            self.visited_all(order.drop_last(), lefts.drop_last(), answers.drop_last()).visited(
                order.last(),
                lefts.last(),
                answers.last(),
            )
        }
    }

    /// Whether `lefts` and `answers` can be what the hooks do on visits in
    /// `order`.
    pub open spec fn visits_fit(
        self,
        order: Seq<CommandIndex>,
        lefts: Seq<Command>,
        answers: Seq<bool>,
    ) -> bool
        decreases order.len(),
    {
        &&& lefts.len() == order.len()
        &&& answers.len() == order.len()
        &&& order.len() > 0 ==> {
            &&& self.visits_fit(order.drop_last(), lefts.drop_last(), answers.drop_last())
            &&& self.visited_all(
                order.drop_last(),
                lefts.drop_last(),
                answers.drop_last(),
            ).visit_fits(order.last(), lefts.last(), answers.last())
        }
    }

    /// The fourth phase of a tick takes the scheduler from `self` to
    /// `after`: every active place is visited once, in some order.
    pub open spec fn commands_run(self, after: SchedulerState) -> bool {
        exists|order: Seq<CommandIndex>, lefts: Seq<Command>, answers: Seq<bool>|
            {
                &&& order.no_duplicates()
                &&& forall|index: CommandIndex| order.contains(index) <==> self.is_active(index)
                &&& self.visits_fit(order, lefts, answers)
                &&& after == #[trigger] self.visited_all(order, lefts, answers)
            }
    }

    /// A tick takes the scheduler from `self` to `after` when `commands` and
    /// `schedulers` wait in the queues: the four phases, in order.
    pub open spec fn ticked(
        self,
        commands: Seq<Command>,
        schedulers: Seq<ConditionalScheduler>,
        after: SchedulerState,
    ) -> bool {
        exists|periods: Seq<Duration>, polled: SchedulerState|
            {
                &&& self.taken_in(commands).with_conditions(schedulers).periods_fit(periods)
                &&& #[trigger] self.taken_in(commands).with_conditions(schedulers).subsystems_run(
                    periods,
                ).defaults_restored().conditions_run(polled)
                &&& polled.commands_run(after)
            }
    }
}

} // verus!
