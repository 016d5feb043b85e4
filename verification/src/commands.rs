//! Commands: units of behaviour with an init / periodic / end / is-finished
//! lifecycle and a declared set of required subsystems.
//!
//! # Lifecycle
//!
//! A command is driven through `init`, then `periodic` and `is_finished` in
//! turn, then `end`. Two predicates make that order part of the contracts:
//!
//! * [`Command::ready`] holds after `init` and says that `periodic` may run;
//! * [`Command::settled`] holds after `periodic` and says that `is_finished`
//!   may be asked.
//!
//! `is_finished` answering `false` gives `ready` back, so the cycle can go on.
//! `end` may be called at any time.
//!
//! # What stays fixed
//!
//! No hook changes what a command declares: its requirement set, whether it
//! refuses incoming commands, whether it runs when disabled, and how deeply
//! it nests other commands. [`Command::same_declaration`] says so in one
//! clause.
//!
//! # What a call does
//!
//! Every command keeps a record of the lifecycle calls made on it
//! ([`Command::calls`]). The contract of a hook is the relation
//! [`Command::follows`] between the command before the call, the call with
//! the period or flag handed in and the answer handed back, and the command
//! after it. For a leaf it says that the call is on record. For a wrapper it
//! says that the inner command follows by the same call. For a composite it
//! says which child follows by which calls and how the cursor or the marks
//! move; [`Command::cycled`] is the relation of one whole cycle. The
//! relations nest as the commands do: to look more than one level down, a
//! proof raises their fuel.
//!
//! # Requirements as a list
//!
//! `get_requirements` hands the requirement set out as a list.
//! [`Command::lists`] says which lists it can be. A leaf returns the list it
//! was given. A composite gathers what its children return in a hashed set,
//! and a proxy keeps what it was given in one; both return each member once,
//! in the order in which the set hands them out, which is no part of any
//! contract.

use std::collections::HashSet;
use std::time::Duration;
use vstd::prelude::*;
use vstd::std_specs::hash::*;
use vstd::string::StringExecFns;

use crate::leaves::{
    cycle_calls, default_name, lemma_cycle_calls, CommandTrait, ConstCommand, CustomCommand,
    LifecycleCall, SimpleCommand, WaitCommand,
};
use crate::requirement::{
    insert_all, list_of, set_of, suids_of, Requirements, SubsystemSUID,
};

verus! {

broadcast use vstd::std_specs::hash::group_hash_axioms;

/// The command that a proxy stands for, seen through the lifecycle alone.
///
/// [`Command`] is the only implementor. A proxy reaches its command through
/// this trait because the command, made afresh on every `init`, is no part of
/// the proxy's own structure.
pub(crate) trait ProxyTarget {
    spec fn target_ready(&self) -> bool;

    spec fn target_settled(&self) -> bool;

    spec fn target_finish_known(&self) -> Option<bool>;

    spec fn target_name(&self) -> Seq<char>;

    spec fn target_calls(&self) -> Seq<LifecycleCall>;

    fn target_init(&mut self)
        ensures
            final(self).target_ready(),
            final(self).target_calls() == old(self).target_calls().push(LifecycleCall::Init),
    ;

    fn target_periodic(&mut self, period: Duration)
        requires
            old(self).target_ready(),
        ensures
            final(self).target_settled(),
            final(self).target_calls() == old(self).target_calls().push(
                LifecycleCall::Periodic(period),
            ),
    ;

    fn target_is_finished(&mut self) -> (finished: bool)
        requires
            old(self).target_settled(),
        ensures
            final(self).target_settled(),
            !finished ==> final(self).target_ready(),
            old(self).target_finish_known() matches Some(known) ==> finished == known,
            final(self).target_calls() == old(self).target_calls().push(
                LifecycleCall::IsFinished(finished),
            ),
    ;

    fn target_end(&mut self, interrupted: bool)
        ensures
            final(self).target_calls() == old(self).target_calls().push(
                LifecycleCall::End(interrupted),
            ),
    ;

    fn target_get_name(&self) -> (name: String)
        ensures
            name@ == self.target_name(),
    ;
}

/// Something that makes the command of a proxy each time it is asked.
///
/// Every closure that returns a [`Command`] is a supplier. The command comes
/// back behind [`ProxyTarget`], which is all that a proxy needs of it.
pub(crate) trait CommandSupplier {
    /// Makes a command and leaves it in `place`.
    fn supply(&mut self, place: &mut Option<Box<dyn ProxyTarget>>)
        ensures
            *final(place) is Some,
    ;
}

/// Trusted: `FnMut::call_mut` on a client closure. Nothing is claimed of the
/// command that comes back.
#[verifier::external_body]
fn run_supplier_closure<F: FnMut() -> Command>(supplier: &mut F) -> Command {
    supplier()
}

impl<F: FnMut() -> Command> CommandSupplier for F {
    fn supply(&mut self, place: &mut Option<Box<dyn ProxyTarget>>) {
        let target: Box<dyn ProxyTarget> = Box::new(run_supplier_closure(self));
        let made = Some(target);
        *place = made;
    }
}

/// Wraps another command, overriding only its name.
pub struct NamedCommand {
    name: String,
    command: Box<Command>,
}

/// Wraps another command, widening its requirement set.
pub struct ExtraRequirementsCommand {
    command: Box<Command>,
    requirements: Vec<SubsystemSUID>,
}

/// Runs its children one after the other.
pub struct SequentialCommand {
    commands: Vec<Command>,
    current: usize,
    calls: Ghost<Seq<LifecycleCall>>,
}

/// Runs its children side by side, every cycle.
///
/// The flag list is grown on demand: a child whose flag is missing has not
/// finished.
pub struct ParallelCommand {
    commands: Vec<Command>,
    finished: Vec<bool>,
    race: bool,
    calls: Ghost<Seq<LifecycleCall>>,
}

/// Stands for a command that a supplier makes afresh on every `init`.
pub struct ProxyCommand {
    command_supplier: Box<dyn CommandSupplier>,
    command: Option<Box<dyn ProxyTarget>>,
    requirements: HashSet<SubsystemSUID>,
    calls: Ghost<Seq<LifecycleCall>>,
    supplies: Ghost<nat>,
    made: Ghost<Seq<LifecycleCall>>,
}

/// A command: one of the leaves, or a composite of other commands.
#[must_use]
pub enum Command {
    /// Children run side by side.
    Parallel(ParallelCommand),
    /// Children run one after the other.
    Sequential(SequentialCommand),
    /// Hooks given as closures.
    Simple(SimpleCommand),
    /// Stateless hooks.
    Const(ConstCommand),
    /// A client's own implementation of the command contract.
    Custom(CustomCommand),
    /// Another command under a name.
    Named(NamedCommand),
    /// Finishes once a set time has passed.
    Wait(WaitCommand),
    /// A command made afresh by a supplier on every `init`.
    Proxy(ProxyCommand),
    /// Another command with a wider requirement set.
    ExtraRequirments(ExtraRequirementsCommand),
}

/// The union of the requirement sets of `commands`.
pub open spec fn union_requirements(commands: Seq<Command>) -> Set<SubsystemSUID>
    decreases commands,
{
    if commands.len() == 0 {
        Set::empty()
    } else {
        union_requirements(commands.drop_last()).union(commands.last().requirement_set())
    }
}

/// The greatest nesting depth among `commands`; 0 if there are none.
pub open spec fn max_depth(commands: Seq<Command>) -> nat
    decreases commands,
{
    if commands.len() == 0 {
        0
    } else {
        let rest = max_depth(commands.drop_last());
        let last = commands.last().depth();
        if last > rest {
            last
        } else {
            rest
        }
    }
}

/// The names of `commands`, joined by `separator`.
pub open spec fn join_names(commands: Seq<Command>, separator: Seq<char>) -> Seq<char>
    decreases commands,
{
    if commands.len() == 0 {
        Seq::empty()
    } else if commands.len() == 1 {
        commands.last().name()
    } else {
        join_names(commands.drop_last(), separator) + separator + commands.last().name()
    }
}

/// No child nests deeper than the deepest.
pub proof fn lemma_depth_bound(commands: Seq<Command>, i: int)
    requires
        0 <= i < commands.len(),
    ensures
        commands[i].depth() <= max_depth(commands),
    decreases commands.len(),
{
    if i < commands.len() - 1 {
        lemma_depth_bound(commands.drop_last(), i);
    }
}

/// Two lists whose members declare the same, one by one, declare the same as
/// a whole.
pub proof fn lemma_same_declarations(a: Seq<Command>, b: Seq<Command>)
    requires
        a.len() == b.len(),
        forall|i: int| 0 <= i < a.len() ==> (#[trigger] a[i]).same_declaration(&b[i]),
    ensures
        union_requirements(a) == union_requirements(b),
        max_depth(a) == max_depth(b),
    decreases a.len(),
{
    if a.len() > 0 {
        assert(a.last().same_declaration(&b.last()));
        lemma_same_declarations(a.drop_last(), b.drop_last());
    }
}

/// A subsystem is required by a list of commands exactly when one of them
/// requires it.
pub proof fn lemma_union_requirements(commands: Seq<Command>, suid: SubsystemSUID)
    ensures
        union_requirements(commands).contains(suid) <==> exists|i: int|
            0 <= i < commands.len() && (#[trigger] commands[i]).requirement_set().contains(suid),
    decreases commands.len(),
{
    if commands.len() > 0 {
        let rest = commands.drop_last();
        lemma_union_requirements(rest, suid);
        if union_requirements(commands).contains(suid) {
            if commands.last().requirement_set().contains(suid) {
                assert(commands[commands.len() - 1].requirement_set().contains(suid));
            } else {
                let i = choose|i: int|
                    0 <= i < rest.len() && (#[trigger] rest[i]).requirement_set().contains(suid);
                assert(commands[i].requirement_set().contains(suid));
            }
        }
        if exists|i: int|
            0 <= i < commands.len() && (#[trigger] commands[i]).requirement_set().contains(suid) {
            let i = choose|i: int|
                0 <= i < commands.len() && (#[trigger] commands[i]).requirement_set().contains(
                    suid,
                );
            if i < commands.len() - 1 {
                assert(rest[i].requirement_set().contains(suid));
            }
        }
    }
}

/// The requirements of two commands together are the union of their
/// requirements.
pub proof fn lemma_union_of_two(first: Command, second: Command)
    ensures
        union_requirements(seq![first, second]) == first.requirement_set().union(
            second.requirement_set(),
        ),
{
    let both = seq![first, second];
    let one = both.drop_last();
    assert(one =~= seq![first]);
    assert(one.drop_last() =~= Seq::<Command>::empty());
    assert(union_requirements(one.drop_last()) =~= Set::<SubsystemSUID>::empty());
    assert(union_requirements(one) =~= first.requirement_set());
    assert(union_requirements(both) =~= first.requirement_set().union(second.requirement_set()));
}

impl Command {
    /// The subsystems that the command declares.
    pub open spec fn requirement_set(&self) -> Set<SubsystemSUID>
        decreases self,
    {
        match self {
            Command::Parallel(c) => c.requirement_set(),
            Command::Sequential(c) => c.requirement_set(),
            Command::Simple(c) => c.requirement_list().to_set(),
            Command::Const(c) => c.requirement_list().to_set(),
            Command::Custom(c) => c.requirement_list().to_set(),
            Command::Named(c) => c.requirement_set(),
            Command::Wait(_) => Set::empty(),
            Command::Proxy(c) => c.requirement_set(),
            Command::ExtraRequirments(c) => c.requirement_set(),
        }
    }

    /// Whether `list` can be what `get_requirements` returns. A leaf
    /// returns its declared list. A wrapper under a name returns what the
    /// inner command returns; one that widens returns that and then the
    /// extra requirements. A composite and a proxy keep their
    /// requirements as a hashed set: they return each member once, in an
    /// order that the set chooses.
    pub open spec fn lists(&self, list: Seq<SubsystemSUID>) -> bool
        decreases self,
    {
        match self {
            Command::Parallel(c) => list.no_duplicates() && list.to_set() == c.requirement_set(),
            Command::Sequential(c) => list.no_duplicates() && list.to_set() == c.requirement_set(),
            Command::Simple(c) => list == c.requirement_list(),
            Command::Const(c) => list == c.requirement_list(),
            Command::Custom(c) => list == c.requirement_list(),
            Command::Named(c) => c.lists(list),
            Command::Wait(_) => list == Seq::<SubsystemSUID>::empty(),
            Command::Proxy(c) => list.no_duplicates() && list.to_set() == c.requirement_set(),
            Command::ExtraRequirments(c) => c.lists(list),
        }
    }

    /// Whether the command, once it owns a subsystem, refuses to give it up.
    pub open spec fn cancels_incoming(&self) -> bool
        decreases self,
    {
        match self {
            Command::Custom(c) => c.cancels_incoming(),
            Command::Named(c) => c.cancels_incoming(),
            Command::ExtraRequirments(c) => c.cancels_incoming(),
            _ => false,
        }
    }

    /// Whether the command asks to run while the robot is disabled.
    pub open spec fn runs_when_disabled(&self) -> bool
        decreases self,
    {
        match self {
            Command::Custom(c) => c.runs_when_disabled(),
            Command::Named(c) => c.runs_when_disabled(),
            Command::ExtraRequirments(c) => c.runs_when_disabled(),
            _ => false,
        }
    }

    /// How deeply the command nests other commands. A proxy counts as a leaf.
    pub open spec fn depth(&self) -> nat
        decreases self,
    {
        match self {
            Command::Parallel(c) => c.depth(),
            Command::Sequential(c) => c.depth(),
            Command::Named(c) => c.depth(),
            Command::ExtraRequirments(c) => c.depth(),
            _ => 0,
        }
    }

    /// `init` has run: `periodic` may be called.
    pub open spec fn ready(&self) -> bool
        decreases self,
    {
        match self {
            Command::Parallel(c) => c.ready(),
            Command::Sequential(c) => c.ready(),
            Command::Named(c) => c.ready(),
            Command::Wait(c) => c.started(),
            Command::Proxy(c) => c.ready(),
            Command::ExtraRequirments(c) => c.ready(),
            _ => true,
        }
    }

    /// `periodic` has returned: `is_finished` may be asked.
    pub open spec fn settled(&self) -> bool
        decreases self,
    {
        match self {
            Command::Parallel(c) => c.ready(),
            Command::Sequential(c) => c.settled(),
            Command::Named(c) => c.settled(),
            Command::Wait(c) => c.started(),
            Command::Proxy(c) => c.settled(),
            Command::ExtraRequirments(c) => c.settled(),
            _ => true,
        }
    }

    /// What `is_finished` answers, where the command's own state decides it.
    /// `None` where a client hook or the clock decides.
    pub open spec fn finish_known(&self) -> Option<bool>
        decreases self,
    {
        match self {
            Command::Parallel(c) => Some(c.all_or_any_finished()),
            Command::Sequential(c) => Some(c.past_end()),
            Command::Simple(c) => if c.has_is_finished() {
                None
            } else {
                Some(false)
            },
            Command::Named(c) => c.finish_known(),
            Command::Proxy(c) => c.finish_known(),
            Command::ExtraRequirments(c) => c.finish_known(),
            _ => None,
        }
    }

    /// The name that `get_name` returns.
    pub open spec fn name(&self) -> Seq<char>
        decreases self,
    {
        match self {
            Command::Parallel(c) => c.name(),
            Command::Sequential(c) => c.name(),
            Command::Simple(_) => default_name(),
            Command::Const(_) => default_name(),
            Command::Custom(c) => c.name(),
            Command::Named(c) => c.name(),
            Command::Wait(c) => c.name(),
            Command::Proxy(c) => c.name(),
            Command::ExtraRequirments(c) => c.name(),
        }
    }

    /// The lifecycle calls made on this command so far, oldest first.
    pub open spec fn calls(&self) -> Seq<LifecycleCall>
        decreases self,
    {
        match self {
            Command::Parallel(c) => c.calls(),
            Command::Sequential(c) => c.calls(),
            Command::Simple(c) => c.calls(),
            Command::Const(c) => c.calls(),
            Command::Custom(c) => c.calls(),
            Command::Named(c) => c.calls(),
            Command::Wait(c) => c.calls(),
            Command::Proxy(c) => c.calls(),
            Command::ExtraRequirments(c) => c.calls(),
        }
    }

    /// Whether `self` is what `call` makes of `before`: a command of the
    /// same kind, changed as that kind says. For a composite this tells
    /// which children received which calls.
    pub open spec fn follows(&self, before: &Command, call: LifecycleCall) -> bool
        decreases before.depth(), 3nat,
    {
        match (self, before) {
            (Command::Parallel(c), Command::Parallel(b)) => c.follows(b, call),
            (Command::Sequential(c), Command::Sequential(b)) => c.follows(b, call),
            (Command::Simple(c), Command::Simple(b)) => c.follows(b, call),
            (Command::Const(c), Command::Const(b)) => c.follows(b, call),
            (Command::Custom(c), Command::Custom(b)) => c.follows(b, call),
            (Command::Named(c), Command::Named(b)) => c.follows(b, call),
            (Command::Wait(c), Command::Wait(b)) => c.follows(b, call),
            (Command::Proxy(c), Command::Proxy(b)) => c.follows(b, call),
            (Command::ExtraRequirments(c), Command::ExtraRequirments(b)) => c.follows(b, call),
            _ => false,
        }
    }

    /// Whether `self` is what one cycle makes of `before`, by way of `ran`
    /// and `asked`: `periodic` with `period` made `ran` of `before`,
    /// `is_finished` answered `finished` and made `asked` of `ran`, and
    /// `self` is what `end(false)` made of `asked` if the answer was that the
    /// command finished, `asked` itself if not.
    pub open spec fn cycled_through(
        &self,
        before: &Command,
        ran: &Command,
        asked: &Command,
        period: Duration,
        finished: bool,
    ) -> bool
        decreases before.depth(), 4nat,
    {
        &&& ran.follows(before, LifecycleCall::Periodic(period))
        &&& if ran.depth() == before.depth() {
            asked.follows(ran, LifecycleCall::IsFinished(finished))
        } else {
            false
        }
        &&& if finished {
            if asked.depth() == before.depth() {
                self.follows(asked, LifecycleCall::End(false))
            } else {
                false
            }
        } else {
            self == asked
        }
    }

    /// Whether `self` is what one cycle makes of `before`: `periodic` with
    /// `period`, then `is_finished` with the answer `finished`, then
    /// `end(false)` exactly if that answer was that the command finished.
    pub open spec fn cycled(&self, before: &Command, period: Duration, finished: bool) -> bool
        decreases before.depth(), 5nat,
    {
        exists|ran: Command, asked: Command|
            #![trigger asked.same_declaration(&ran)]
            {
                &&& ran.same_declaration(before)
                &&& asked.same_declaration(&ran)
                &&& self.cycled_through(before, &ran, &asked, period, finished)
            }
    }

    /// What no hook changes.
    pub open spec fn same_declaration(&self, other: &Command) -> bool {
        &&& self.requirement_set() == other.requirement_set()
        &&& self.cancels_incoming() == other.cancels_incoming()
        &&& self.runs_when_disabled() == other.runs_when_disabled()
        &&& self.depth() == other.depth()
    }
}

impl NamedCommand {
    pub closed spec fn inner(&self) -> Command {
        *self.command
    }

    pub open spec fn requirement_set(&self) -> Set<SubsystemSUID>
        decreases self,
    {
        self.inner().requirement_set()
    }

    /// Whether `list` can be what `get_requirements` returns: what the
    /// inner command can return.
    pub open spec fn lists(&self, list: Seq<SubsystemSUID>) -> bool
        decreases self,
    {
        self.inner().lists(list)
    }

    pub open spec fn cancels_incoming(&self) -> bool
        decreases self,
    {
        self.inner().cancels_incoming()
    }

    pub open spec fn runs_when_disabled(&self) -> bool
        decreases self,
    {
        self.inner().runs_when_disabled()
    }

    pub open spec fn depth(&self) -> nat
        decreases self,
    {
        self.inner().depth() + 1
    }

    pub open spec fn ready(&self) -> bool
        decreases self,
    {
        self.inner().ready()
    }

    pub open spec fn settled(&self) -> bool
        decreases self,
    {
        self.inner().settled()
    }

    pub open spec fn finish_known(&self) -> Option<bool>
        decreases self,
    {
        self.inner().finish_known()
    }

    /// The lifecycle calls made on this command so far: those that the
    /// inner command has received.
    pub open spec fn calls(&self) -> Seq<LifecycleCall>
        decreases self,
    {
        self.inner().calls()
    }

    pub closed spec fn name(&self) -> Seq<char> {
        self.name@
    }

    /// What no hook changes: the name, and what the inner command declares.
    pub open spec fn same_outline(&self, other: &Self) -> bool {
        &&& self.name() == other.name()
        &&& self.inner().same_declaration(&other.inner())
    }

    /// Whether `self` is what `call` makes of `before`: the call went on to
    /// the inner command, with the same period or flag and the inner
    /// command's own answer, and the name stands.
    pub open spec fn follows(&self, before: &Self, call: LifecycleCall) -> bool
        decreases before.depth(), 2nat,
    {
        &&& self.same_outline(before)
        &&& self.inner().follows(&before.inner(), call)
        &&& self.calls() == before.calls().push(call)
    }

    /// Hands `init` on to the inner command.
    pub fn init(&mut self)
        ensures
            final(self).ready(),
            final(self).follows(old(self), LifecycleCall::Init),
        decreases old(self).depth(), 0nat,
    {
        self.command.init();
    }

    /// Hands `periodic` on to the inner command, with `period`.
    pub fn periodic(&mut self, period: Duration)
        requires
            old(self).ready(),
        ensures
            final(self).settled(),
            final(self).follows(old(self), LifecycleCall::Periodic(period)),
        decreases old(self).depth(), 0nat,
    {
        self.command.periodic(period);
    }

    /// Hands `end` on to the inner command, with `interrupted`.
    pub fn end(&mut self, interrupted: bool)
        ensures
            final(self).follows(old(self), LifecycleCall::End(interrupted)),
        decreases old(self).depth(), 0nat,
    {
        self.command.end(interrupted);
    }

    /// Asks the inner command and hands its answer on.
    pub fn is_finished(&mut self) -> (finished: bool)
        requires
            old(self).settled(),
        ensures
            final(self).settled(),
            !finished ==> final(self).ready(),
            old(self).finish_known() matches Some(known) ==> finished == known,
            final(self).follows(old(self), LifecycleCall::IsFinished(finished)),
        decreases old(self).depth(), 0nat,
    {
        self.command.is_finished()
    }

    pub fn get_requirements(&self) -> (list: Vec<SubsystemSUID>)
        ensures
            self.lists(list@),
            list@.to_set() == self.requirement_set(),
        decreases self.depth(), 0nat,
    {
        self.command.get_requirements()
    }

    pub fn get_name(&self) -> (name: String)
        ensures
            name@ == self.name(),
    {
        self.name.clone()
    }
}

impl ExtraRequirementsCommand {
    pub closed spec fn inner(&self) -> Command {
        *self.command
    }

    pub closed spec fn extra(&self) -> Seq<SubsystemSUID> {
        self.requirements@
    }

    pub open spec fn requirement_set(&self) -> Set<SubsystemSUID>
        decreases self,
    {
        self.inner().requirement_set().union(self.extra().to_set())
    }

    /// Whether `list` can be what `get_requirements` returns: what the
    /// inner command can return, then the extra requirements.
    pub open spec fn lists(&self, list: Seq<SubsystemSUID>) -> bool
        decreases self,
    {
        exists|inner: Seq<SubsystemSUID>|
            self.inner().lists(inner) && list == #[trigger] (inner + self.extra())
    }

    pub open spec fn cancels_incoming(&self) -> bool
        decreases self,
    {
        self.inner().cancels_incoming()
    }

    pub open spec fn runs_when_disabled(&self) -> bool
        decreases self,
    {
        self.inner().runs_when_disabled()
    }

    pub open spec fn depth(&self) -> nat
        decreases self,
    {
        self.inner().depth() + 1
    }

    pub open spec fn ready(&self) -> bool
        decreases self,
    {
        self.inner().ready()
    }

    pub open spec fn settled(&self) -> bool
        decreases self,
    {
        self.inner().settled()
    }

    pub open spec fn finish_known(&self) -> Option<bool>
        decreases self,
    {
        self.inner().finish_known()
    }

    /// The lifecycle calls made on this command so far: those that the
    /// inner command has received.
    pub open spec fn calls(&self) -> Seq<LifecycleCall>
        decreases self,
    {
        self.inner().calls()
    }

    pub open spec fn name(&self) -> Seq<char>
        decreases self,
    {
        self.inner().name()
    }

    /// What no hook changes: the extra requirements, and what the inner
    /// command declares.
    pub open spec fn same_outline(&self, other: &Self) -> bool {
        &&& self.extra() == other.extra()
        &&& self.inner().same_declaration(&other.inner())
    }

    /// Whether `self` is what `call` makes of `before`: the call went on to
    /// the inner command, with the same period or flag and the inner
    /// command's own answer, and the extra requirements stand.
    pub open spec fn follows(&self, before: &Self, call: LifecycleCall) -> bool
        decreases before.depth(), 2nat,
    {
        &&& self.same_outline(before)
        &&& self.inner().follows(&before.inner(), call)
        &&& self.calls() == before.calls().push(call)
    }

    /// Hands `init` on to the inner command.
    pub fn init(&mut self)
        ensures
            final(self).ready(),
            final(self).follows(old(self), LifecycleCall::Init),
        decreases old(self).depth(), 0nat,
    {
        self.command.init();
    }

    /// Hands `periodic` on to the inner command, with `period`.
    pub fn periodic(&mut self, period: Duration)
        requires
            old(self).ready(),
        ensures
            final(self).settled(),
            final(self).follows(old(self), LifecycleCall::Periodic(period)),
        decreases old(self).depth(), 0nat,
    {
        self.command.periodic(period);
    }

    /// Hands `end` on to the inner command, with `interrupted`.
    pub fn end(&mut self, interrupted: bool)
        ensures
            final(self).follows(old(self), LifecycleCall::End(interrupted)),
        decreases old(self).depth(), 0nat,
    {
        self.command.end(interrupted);
    }

    /// Asks the inner command and hands its answer on.
    pub fn is_finished(&mut self) -> (finished: bool)
        requires
            old(self).settled(),
        ensures
            final(self).settled(),
            !finished ==> final(self).ready(),
            old(self).finish_known() matches Some(known) ==> finished == known,
            final(self).follows(old(self), LifecycleCall::IsFinished(finished)),
        decreases old(self).depth(), 0nat,
    {
        self.command.is_finished()
    }

    /// The inner command's requirements, then the extra ones.
    pub fn get_requirements(&self) -> (list: Vec<SubsystemSUID>)
        ensures
            self.lists(list@),
            list@.to_set() == self.requirement_set(),
        decreases self.depth(), 0nat,
    {
        let mut list = self.command.get_requirements();
        let ghost inner = list@;
        let mut extra = self.requirements.clone();
        list.append(&mut extra);
        proof {
            assert(self.inner().lists(inner));
            assert(list@ == inner + self.extra());
            vstd::seq_lib::seq_to_set_distributes_over_add(inner, self.extra());
        }
        list
    }

    pub fn get_name(&self) -> (name: String)
        ensures
            name@ == self.name(),
        decreases self.depth(), 0nat,
    {
        self.command.get_name()
    }
}

impl SequentialCommand {
    /// The children, in the order in which they run.
    pub closed spec fn children(&self) -> Seq<Command> {
        self.commands@
    }

    /// The index of the child that runs now; the number of children once all
    /// have run.
    pub closed spec fn cursor(&self) -> int {
        self.current as int
    }

    pub open spec fn requirement_set(&self) -> Set<SubsystemSUID>
        decreases self,
    {
        union_requirements(self.children())
    }

    pub open spec fn depth(&self) -> nat
        decreases self,
    {
        max_depth(self.children()) + 1
    }

    /// The lifecycle calls made on the sequence itself so far, oldest first.
    /// What each child has received is in that child's own record.
    pub closed spec fn calls(&self) -> Seq<LifecycleCall> {
        self.calls@
    }

    /// The cursor is past the last child.
    pub open spec fn past_end(&self) -> bool {
        self.cursor() >= self.children().len()
    }

    /// `periodic` may be called: the sequence is empty, or the child under
    /// the cursor is ready.
    pub open spec fn ready(&self) -> bool
        decreases self,
    {
        self.children().len() == 0 || (0 <= self.cursor() < self.children().len()
            && self.children()[self.cursor()].ready())
    }

    /// `is_finished` may be asked: the child under the cursor, if there is
    /// one, is ready.
    pub open spec fn settled(&self) -> bool
        decreases self,
    {
        0 <= self.cursor() < self.children().len() ==> self.children()[self.cursor()].ready()
    }

    pub open spec fn name(&self) -> Seq<char>
        decreases self,
    {
        join_names(self.children(), "->"@)
    }

    /// A sequence of `commands` with the cursor on the first.
    fn of(commands: Vec<Command>) -> (sequential: Self)
        ensures
            sequential.children() == commands@,
            sequential.cursor() == 0,
            sequential.requirement_set() == union_requirements(commands@),
            sequential.depth() == max_depth(commands@) + 1,
            sequential.calls() == Seq::<LifecycleCall>::empty(),
    {
        SequentialCommand { commands, current: 0, calls: Ghost(Seq::empty()) }
    }

    /// What no hook changes: the number of children, and what each declares.
    pub open spec fn same_outline(&self, other: &Self) -> bool {
        &&& self.children().len() == other.children().len()
        &&& forall|i: int|
            0 <= i < self.children().len() ==> (#[trigger] self.children()[i]).same_declaration(
                &other.children()[i],
            )
    }

    /// Commands with the same outline declare the same.
    pub proof fn lemma_outline(&self, other: &Self)
        requires
            self.same_outline(other),
        ensures
            self.requirement_set() == other.requirement_set(),
            self.depth() == other.depth(),
    {
        lemma_same_declarations(self.commands@, other.commands@);
    }

    /// What `init` makes of `before`: the cursor is on the first child,
    /// which follows by `init`; the other children are as they were.
    pub open spec fn follows_init(&self, before: &Self) -> bool
        decreases before.depth(), 1nat,
        via Self::follows_init_decreases
    {
        &&& self.cursor() == if before.children().len() > 0 {
            0
        } else {
            before.cursor()
        }
        &&& before.children().len() > 0 ==> self.children()[0].follows(
            &before.children()[0],
            LifecycleCall::Init,
        )
        &&& forall|i: int|
            1 <= i < before.children().len() ==> #[trigger] self.children()[i]
                == before.children()[i]
    }

    /// What a cycle makes of `before`: the current child has gone through
    /// one cycle; the cursor has moved on by one exactly if that child
    /// answered that it finished; the child then under the cursor, if there
    /// is one, follows by `init`; the other children are as they were. An
    /// empty sequence stays as it is.
    pub open spec fn follows_periodic(&self, before: &Self, period: Duration) -> bool
        decreases before.depth(), 1nat,
        via Self::follows_periodic_decreases
    {
        let at = before.cursor();
        let moved = self.cursor() != at;
        &&& self.cursor() == at || (before.children().len() > 0 && self.cursor() == at + 1)
        &&& 0 <= at < before.children().len() ==> self.children()[at].cycled(
            &before.children()[at],
            period,
            moved,
        )
        &&& moved && 0 <= self.cursor() < before.children().len()
            ==> self.children()[self.cursor()].follows(
            &before.children()[self.cursor()],
            LifecycleCall::Init,
        )
        &&& forall|i: int|
            0 <= i < before.children().len() && i != at && i != self.cursor()
                ==> #[trigger] self.children()[i] == before.children()[i]
    }

    /// What `end` makes of `before`: on interruption the current child, if
    /// there is one, follows by `end(true)`; everything else, and the
    /// cursor, is as it was.
    pub open spec fn follows_end(&self, before: &Self, interrupted: bool) -> bool
        decreases before.depth(), 1nat,
        via Self::follows_end_decreases
    {
        let cut = interrupted && 0 <= before.cursor() < before.children().len();
        &&& self.cursor() == before.cursor()
        &&& cut ==> self.children()[before.cursor()].follows(
            &before.children()[before.cursor()],
            LifecycleCall::End(true),
        )
        &&& forall|i: int|
            0 <= i < before.children().len() && !(interrupted && i == before.cursor())
                ==> #[trigger] self.children()[i] == before.children()[i]
    }

    #[via_fn]
    proof fn follows_init_decreases(&self, before: &Self) {
        if before.commands@.len() > 0 {
            lemma_depth_bound(before.commands@, 0);
        }
    }

    #[via_fn]
    proof fn follows_periodic_decreases(&self, before: &Self, period: Duration) {
        if before.commands@.len() > 0 {
            if 0 <= before.cursor() < before.commands@.len() {
                lemma_depth_bound(before.commands@, before.cursor());
            }
            if 0 <= self.cursor() < before.commands@.len() {
                lemma_depth_bound(before.commands@, self.cursor());
            }
        }
    }

    #[via_fn]
    proof fn follows_end_decreases(&self, before: &Self, interrupted: bool) {
        if 0 <= before.cursor() < before.commands@.len() {
            lemma_depth_bound(before.commands@, before.cursor());
        }
    }

    /// Whether `self` is what `call` makes of `before`.
    pub open spec fn follows(&self, before: &Self, call: LifecycleCall) -> bool
        decreases before.depth(), 2nat,
    {
        &&& self.same_outline(before)
        &&& self.calls() == before.calls().push(call)
        &&& match call {
            LifecycleCall::Init => self.follows_init(before),
            LifecycleCall::Periodic(period) => self.follows_periodic(before, period),
            LifecycleCall::IsFinished(finished) => {
                &&& self.children() == before.children()
                &&& self.cursor() == before.cursor()
                &&& finished == before.past_end()
            },
            LifecycleCall::End(interrupted) => self.follows_end(before, interrupted),
        }
    }

    fn is_empty(&self) -> (empty: bool)
        ensures
            empty == (self.children().len() == 0),
    {
        self.commands.len() == 0
    }

    /// Moves the cursor to the first child and initialises it.
    pub fn init(&mut self)
        ensures
            final(self).ready(),
            final(self).follows(old(self), LifecycleCall::Init),
        decreases old(self).depth(), 0nat,
    {
        self.calls = Ghost(self.calls@.push(LifecycleCall::Init));
        if self.is_empty() {
            return ;
        }
        self.current = 0;
        proof {
            lemma_depth_bound(self.commands@, 0);
        }
        self.commands[0].init();
    }

    /// Runs the current child. If it reports finished, ends it, moves the
    /// cursor on, and initialises the next child if there is one.
    pub fn periodic(&mut self, period: Duration)
        requires
            old(self).ready(),
        ensures
            final(self).settled(),
            final(self).follows(old(self), LifecycleCall::Periodic(period)),
        decreases old(self).depth(), 0nat,
    {
        self.calls = Ghost(self.calls@.push(LifecycleCall::Periodic(period)));
        if self.is_empty() {
            return ;
        }
        let index = self.current;
        proof {
            lemma_depth_bound(self.commands@, index as int);
        }
        let ghost start = self.commands@[index as int];
        self.commands[index].periodic(period);
        let ghost ran = self.commands@[index as int];
        let finished = self.commands[index].is_finished();
        let ghost asked = self.commands@[index as int];
        if finished {
            self.commands[index].end(false);
            let count = self.commands.len();
            let next = index + 1;
            self.current = next;
            if next < count {
                proof {
                    lemma_depth_bound(old(self).commands@, next as int);
                }
                self.commands[next].init();
            }
        }
        proof {
            assert(asked.same_declaration(&ran));
            assert(self.commands@[index as int].cycled_through(
                &start,
                &ran,
                &asked,
                period,
                finished,
            ));
        }
    }

    /// On interruption, ends the current child as interrupted.
    pub fn end(&mut self, interrupted: bool)
        ensures
            final(self).follows(old(self), LifecycleCall::End(interrupted)),
        decreases old(self).depth(), 0nat,
    {
        self.calls = Ghost(self.calls@.push(LifecycleCall::End(interrupted)));
        if interrupted {
            let index = self.current;
            if index < self.commands.len() {
                proof {
                    lemma_depth_bound(self.commands@, index as int);
                }
                self.commands[index].end(true);
            }
        }
    }

    /// Finished once the cursor is past the last child.
    pub fn is_finished(&mut self) -> (finished: bool)
        requires
            old(self).settled(),
        ensures
            final(self).follows(old(self), LifecycleCall::IsFinished(finished)),
            final(self).settled(),
            !finished ==> final(self).ready(),
    {
        let finished = self.current >= self.commands.len();
        self.calls = Ghost(self.calls@.push(LifecycleCall::IsFinished(finished)));
        finished
    }

    /// The requirements of all children, whatever the cursor.
    pub fn get_requirements(&self) -> (list: Vec<SubsystemSUID>)
        ensures
            list@.to_set() == self.requirement_set(),
            list@.no_duplicates(),
        decreases self.depth(), 0nat,
    {
        collect_requirements(&self.commands)
    }

    /// The children's names, joined by `->`.
    pub fn get_name(&self) -> (name: String)
        ensures
            name@ == self.name(),
        decreases self.depth(), 0nat,
    {
        collect_names(&self.commands, "->")
    }
}

impl ParallelCommand {
    /// The children, in the order in which they run within a cycle.
    pub closed spec fn children(&self) -> Seq<Command> {
        self.commands@
    }

    /// Whether child `i` has finished and been ended.
    pub closed spec fn is_done(&self, i: int) -> bool {
        0 <= i < self.finished@.len() && self.finished@[i]
    }

    /// Whether one finished child finishes the whole.
    pub closed spec fn is_race(&self) -> bool {
        self.race
    }

    /// The lifecycle calls made on the composite itself so far, oldest first.
    /// What each child has received is in that child's own record.
    pub closed spec fn calls(&self) -> Seq<LifecycleCall> {
        self.calls@
    }

    pub open spec fn requirement_set(&self) -> Set<SubsystemSUID>
        decreases self,
    {
        union_requirements(self.children())
    }

    pub open spec fn depth(&self) -> nat
        decreases self,
    {
        max_depth(self.children()) + 1
    }

    /// A race is finished once any child is; otherwise all must be.
    pub open spec fn all_or_any_finished(&self) -> bool {
        if self.is_race() {
            exists|i: int| 0 <= i < self.children().len() && self.is_done(i)
        } else {
            forall|i: int| 0 <= i < self.children().len() ==> self.is_done(i)
        }
    }

    /// `periodic` may be called: every child that has not finished is
    /// ready.
    pub open spec fn ready(&self) -> bool
        decreases self,
    {
        forall|i: int|
            0 <= i < self.children().len() && !self.is_done(i) ==> (
            #[trigger] self.children()[i]).ready()
    }

    pub open spec fn name(&self) -> Seq<char>
        decreases self,
    {
        join_names(self.children(), ","@)
    }

    /// A composite of `commands` in which no child has finished yet.
    fn of(commands: Vec<Command>, race: bool) -> (parallel: Self)
        ensures
            parallel.children() == commands@,
            parallel.is_race() == race,
            forall|i: int| !parallel.is_done(i),
            parallel.requirement_set() == union_requirements(commands@),
            parallel.depth() == max_depth(commands@) + 1,
            parallel.calls() == Seq::<LifecycleCall>::empty(),
    {
        ParallelCommand { commands, finished: Vec::new(), race, calls: Ghost(Seq::empty()) }
    }

    /// What no hook changes: whether it is a race, the number of children,
    /// and what each declares.
    pub open spec fn same_outline(&self, other: &Self) -> bool {
        &&& self.is_race() == other.is_race()
        &&& self.children().len() == other.children().len()
        &&& forall|i: int|
            0 <= i < self.children().len() ==> (#[trigger] self.children()[i]).same_declaration(
                &other.children()[i],
            )
    }

    /// Commands with the same outline declare the same.
    pub proof fn lemma_outline(&self, other: &Self)
        requires
            self.same_outline(other),
        ensures
            self.requirement_set() == other.requirement_set(),
            self.depth() == other.depth(),
    {
        lemma_same_declarations(self.commands@, other.commands@);
    }

    /// What `init` makes of `before`: every child follows by `init`, and no
    /// mark has changed.
    pub open spec fn follows_init(&self, before: &Self) -> bool
        decreases before.depth(), 1nat,
        via Self::follows_init_decreases
    {
        &&& forall|i: int| self.is_done(i) == before.is_done(i)
        &&& forall|i: int|
            0 <= i < before.children().len() ==> (#[trigger] self.children()[i]).follows(
                &before.children()[i],
                LifecycleCall::Init,
            )
    }

    #[via_fn]
    proof fn follows_init_decreases(&self, before: &Self) {
        assert forall|i: int| 0 <= i < before.commands@.len() implies before.commands@[i].depth()
            < before.depth() by {
            lemma_depth_bound(before.commands@, i);
        }
    }

    /// What a cycle makes of `before`: every child that was not marked has
    /// gone through one cycle and is marked exactly if it answered that it
    /// finished; the marked children are as they were, and marked.
    pub open spec fn follows_periodic(&self, before: &Self, period: Duration) -> bool
        decreases before.depth(), 1nat,
        via Self::follows_periodic_decreases
    {
        &&& forall|i: int| before.is_done(i) ==> self.is_done(i)
        &&& forall|i: int|
            0 <= i < before.children().len() && before.is_done(i)
                ==> #[trigger] self.children()[i] == before.children()[i]
        &&& forall|i: int|
            0 <= i < before.children().len() && !before.is_done(i) ==> (
            #[trigger] self.children()[i]).cycled(&before.children()[i], period, self.is_done(i))
    }

    #[via_fn]
    proof fn follows_periodic_decreases(&self, before: &Self, period: Duration) {
        assert forall|i: int| 0 <= i < before.commands@.len() implies before.commands@[i].depth()
            < before.depth() by {
            lemma_depth_bound(before.commands@, i);
        }
    }

    /// Whether `end` with the flag `interrupted` cuts the running children
    /// short: it does when the composite itself is cut short, and when a
    /// race is over, which is how the losers of a race come to their end.
    pub open spec fn cuts_short(&self, interrupted: bool) -> bool {
        interrupted || self.is_race()
    }

    /// What `end` makes of `before`. Where it cuts short, every child that
    /// was not marked follows by `end(true)` and is marked, and the children
    /// that were marked are as they were. Where it does not, no child is
    /// called and no mark changes.
    pub open spec fn follows_end(&self, before: &Self, interrupted: bool) -> bool
        decreases before.depth(), 1nat,
        via Self::follows_end_decreases
    {
        if before.cuts_short(interrupted) {
            &&& forall|i: int| 0 <= i < before.children().len() ==> self.is_done(i)
            &&& forall|i: int|
                0 <= i < before.children().len() && before.is_done(i)
                    ==> #[trigger] self.children()[i] == before.children()[i]
            &&& forall|i: int|
                0 <= i < before.children().len() && !before.is_done(i) ==> (
                #[trigger] self.children()[i]).follows(
                    &before.children()[i],
                    LifecycleCall::End(true),
                )
        } else {
            &&& self.children() == before.children()
            &&& forall|i: int| self.is_done(i) == before.is_done(i)
        }
    }

    #[via_fn]
    proof fn follows_end_decreases(&self, before: &Self, interrupted: bool) {
        assert forall|i: int| 0 <= i < before.commands@.len() implies before.commands@[i].depth()
            < before.depth() by {
            lemma_depth_bound(before.commands@, i);
        }
    }

    /// Whether `self` is what `call` makes of `before`.
    pub open spec fn follows(&self, before: &Self, call: LifecycleCall) -> bool
        decreases before.depth(), 2nat,
    {
        &&& self.same_outline(before)
        &&& self.calls() == before.calls().push(call)
        &&& match call {
            LifecycleCall::Init => self.follows_init(before),
            LifecycleCall::Periodic(period) => self.follows_periodic(before, period),
            LifecycleCall::IsFinished(finished) => {
                &&& self.children() == before.children()
                &&& forall|i: int| self.is_done(i) == before.is_done(i)
                &&& finished == before.all_or_any_finished()
            },
            LifecycleCall::End(interrupted) => self.follows_end(before, interrupted),
        }
    }

    fn done_flag(&self, i: usize) -> (done: bool)
        ensures
            done == self.is_done(i as int),
    {
        i < self.finished.len() && self.finished[i]
    }

    fn mark_done(&mut self, i: usize)
        ensures
            final(self).is_done(i as int),
            forall|j: int|
                #![trigger final(self).is_done(j)]
                j != i ==> final(self).is_done(j) == old(self).is_done(j),
            final(self).commands == old(self).commands,
            final(self).race == old(self).race,
            final(self).calls == old(self).calls,
    {
        while self.finished.len() <= i
            invariant
                self.commands == old(self).commands,
                self.race == old(self).race,
                self.calls == old(self).calls,
                forall|j: int| self.is_done(j) == old(self).is_done(j),
            decreases i + 1 - self.finished@.len(),
        {
            self.finished.push(false);
        }
        self.finished.set(i, true);
    }

    /// Initialises every child.
    pub fn init(&mut self)
        ensures
            final(self).ready(),
            final(self).follows(old(self), LifecycleCall::Init),
        decreases old(self).depth(), 0nat,
    {
        self.calls = Ghost(self.calls@.push(LifecycleCall::Init));
        let count = self.commands.len();
        let mut i: usize = 0;
        while i < count
            invariant
                i <= count,
                count == self.commands@.len(),
                self.same_outline(old(self)),
                self.finished == old(self).finished,
                self.calls@ == old(self).calls@.push(LifecycleCall::Init),
                forall|j: int| 0 <= j < i ==> (#[trigger] self.commands@[j]).ready(),
                forall|j: int|
                    0 <= j < i ==> (#[trigger] self.commands@[j]).follows(
                        &old(self).commands@[j],
                        LifecycleCall::Init,
                    ),
                forall|j: int|
                    i <= j < count ==> #[trigger] self.commands@[j] == old(self).commands@[j],
            decreases count - i,
        {
            proof {
                lemma_depth_bound(old(self).commands@, i as int);
                assert(self.commands@[i as int].same_declaration(&old(self).commands@[i as int]));
            }
            self.commands[i].init();
            i += 1;
        }
    }

    /// Runs every child that has not finished. A child that then reports
    /// finished is ended and marked.
    pub fn periodic(&mut self, period: Duration)
        requires
            old(self).ready(),
        ensures
            final(self).ready(),
            final(self).follows(old(self), LifecycleCall::Periodic(period)),
        decreases old(self).depth(), 0nat,
    {
        self.calls = Ghost(self.calls@.push(LifecycleCall::Periodic(period)));
        let count = self.commands.len();
        let mut i: usize = 0;
        while i < count
            invariant
                i <= count,
                count == self.commands@.len(),
                self.same_outline(old(self)),
                self.ready(),
                self.calls@ == old(self).calls@.push(LifecycleCall::Periodic(period)),
                forall|j: int| old(self).is_done(j) ==> self.is_done(j),
                forall|j: int| i <= j ==> self.is_done(j) == old(self).is_done(j),
                forall|j: int|
                    0 <= j < count && (old(self).is_done(j) || i <= j) ==> #[trigger] self.commands@[j]
                        == old(self).commands@[j],
                forall|j: int|
                    0 <= j < i && !old(self).is_done(j) ==> (#[trigger] self.commands@[j]).cycled(
                        &old(self).commands@[j],
                        period,
                        self.is_done(j),
                    ),
            decreases count - i,
        {
            proof {
                lemma_depth_bound(old(self).commands@, i as int);
                assert(self.commands@[i as int].same_declaration(&old(self).commands@[i as int]));
            }
            if !self.done_flag(i) {
                let ghost before = *self;
                let ghost start = self.commands@[i as int];
                self.commands[i].periodic(period);
                let ghost ran = self.commands@[i as int];
                let finished = self.commands[i].is_finished();
                let ghost asked = self.commands@[i as int];
                if finished {
                    self.commands[i].end(false);
                    assert(forall|j: int|
                        #![trigger self.is_done(j)]
                        self.is_done(j) == before.is_done(j));
                    self.mark_done(i);
                } else {
                    assert(forall|j: int|
                        #![trigger self.is_done(j)]
                        self.is_done(j) == before.is_done(j));
                }
                proof {
                    assert(asked.same_declaration(&ran));
                    assert(self.commands@[i as int].cycled_through(
                        &start,
                        &ran,
                        &asked,
                        period,
                        finished,
                    ));
                    assert(self.commands@[i as int].cycled(&start, period, finished));
                }
            }
            i += 1;
        }
    }

    /// Where the composite is cut short, or is a race, ends every child that
    /// has not finished, as interrupted, and marks it. A composite that is
    /// no race and has come to its own end calls no child.
    pub fn end(&mut self, interrupted: bool)
        ensures
            final(self).follows(old(self), LifecycleCall::End(interrupted)),
        decreases old(self).depth(), 0nat,
    {
        self.calls = Ghost(self.calls@.push(LifecycleCall::End(interrupted)));
        if !(interrupted || self.race) {
            return ;
        }
        let count = self.commands.len();
        let mut i: usize = 0;
        while i < count
            invariant
                i <= count,
                count == self.commands@.len(),
                self.same_outline(old(self)),
                self.calls@ == old(self).calls@.push(LifecycleCall::End(interrupted)),
                forall|j: int| i <= j ==> self.is_done(j) == old(self).is_done(j),
                forall|j: int|
                    0 <= j < i && !old(self).is_done(j) ==> (#[trigger] self.commands@[j]).follows(
                        &old(self).commands@[j],
                        LifecycleCall::End(true),
                    ),
                forall|j: int| 0 <= j < i ==> self.is_done(j),
                forall|j: int| old(self).is_done(j) ==> self.is_done(j),
                forall|j: int|
                    0 <= j < count && (old(self).is_done(j) || i <= j) ==> #[trigger] self.commands@[j]
                        == old(self).commands@[j],
            decreases count - i,
        {
            proof {
                lemma_depth_bound(old(self).commands@, i as int);
                assert(self.commands@[i as int].same_declaration(&old(self).commands@[i as int]));
            }
            if !self.done_flag(i) {
                let ghost before = *self;
                self.commands[i].end(true);
                assert(forall|j: int| #![trigger self.is_done(j)] self.is_done(j) == before.is_done(j));
                self.mark_done(i);
            }
            i += 1;
        }
    }

    /// A race is finished once any child is; otherwise all must be.
    pub fn is_finished(&mut self) -> (finished: bool)
        requires
            old(self).ready(),
        ensures
            final(self).follows(old(self), LifecycleCall::IsFinished(finished)),
            final(self).ready(),
    {
        let count = self.commands.len();
        let mut any = false;
        let mut all = true;
        let mut i: usize = 0;
        while i < count
            invariant
                i <= count,
                count == self.commands@.len(),
                *self == *old(self),
                any == exists|j: int| 0 <= j < i && self.is_done(j),
                all == forall|j: int| 0 <= j < i ==> self.is_done(j),
            decreases count - i,
        {
            if self.done_flag(i) {
                any = true;
            } else {
                all = false;
            }
            i += 1;
        }
        let finished = if self.race {
            any
        } else {
            all
        };
        self.calls = Ghost(self.calls@.push(LifecycleCall::IsFinished(finished)));
        proof {
            assert(self.children() == old(self).children());
            assert forall|i: int|
                0 <= i < self.children().len() && !self.is_done(i) implies (
            #[trigger] self.children()[i]).ready() by {
                assert(!old(self).is_done(i));
                assert(old(self).children()[i].ready());
            }
        }
        finished
    }

    /// The requirements of all children.
    pub fn get_requirements(&self) -> (list: Vec<SubsystemSUID>)
        ensures
            list@.to_set() == self.requirement_set(),
            list@.no_duplicates(),
        decreases self.depth(), 0nat,
    {
        collect_requirements(&self.commands)
    }

    /// The children's names, joined by `,`.
    pub fn get_name(&self) -> (name: String)
        ensures
            name@ == self.name(),
        decreases self.depth(), 0nat,
    {
        collect_names(&self.commands, ",")
    }

    /// A race is finished as soon as one child is, whatever the others do.
    pub proof fn lemma_race_finished(&self, child: int)
        requires
            self.is_race(),
            0 <= child < self.children().len(),
            self.is_done(child),
        ensures
            self.all_or_any_finished(),
    {
    }
}

impl ProxyCommand {
    /// The requirements declared when the proxy was made.
    pub closed spec fn requirement_set(&self) -> Set<SubsystemSUID> {
        self.requirements@
    }

    /// Whether the proxy holds a command made by its supplier.
    pub closed spec fn holds_command(&self) -> bool {
        self.command is Some
    }

    pub closed spec fn ready(&self) -> bool {
        match self.command {
            Some(target) => target.target_ready(),
            None => false,
        }
    }

    pub closed spec fn settled(&self) -> bool {
        match self.command {
            Some(target) => target.target_settled(),
            None => false,
        }
    }

    pub closed spec fn finish_known(&self) -> Option<bool> {
        match self.command {
            Some(target) => target.target_finish_known(),
            None => None,
        }
    }

    pub closed spec fn name(&self) -> Seq<char> {
        match self.command {
            Some(target) => "ProxyCommand("@ + target.target_name() + ")"@,
            None => "ProxyCommand(?)"@,
        }
    }

    /// The lifecycle calls made on the proxy itself so far, oldest first.
    pub closed spec fn calls(&self) -> Seq<LifecycleCall> {
        self.calls@
    }

    /// The lifecycle calls that the command held has received, its own
    /// history before the proxy took it included; none while the proxy holds
    /// no command.
    pub closed spec fn held_calls(&self) -> Seq<LifecycleCall> {
        match self.command {
            Some(target) => target.target_calls(),
            None => Seq::empty(),
        }
    }

    /// Whether the proxy asks the closure `supplier` for its commands.
    pub closed spec fn asks<F: FnMut() -> Command + 'static>(&self, supplier: F) -> bool {
        let made: Box<dyn CommandSupplier> = Box::new(supplier);
        self.command_supplier == made
    }

    /// The record of the command that the supplier made last, as the
    /// supplier handed it over.
    pub closed spec fn made_calls(&self) -> Seq<LifecycleCall> {
        self.made@
    }

    /// How many times the supplier has been asked for a command.
    pub closed spec fn supplied(&self) -> nat {
        self.supplies@
    }

    /// Whether `self` is what `call` makes of `before`. On `init` the
    /// supplier has been asked once more, and the proxy holds the command it
    /// made, which has received `init` and nothing else since. Every other call went on to the command
    /// held, if there is one, with the same period or flag and that
    /// command's own answer, and the supplier was not asked. The
    /// requirements stand.
    pub open spec fn follows(&self, before: &Self, call: LifecycleCall) -> bool {
        &&& self.requirement_set() == before.requirement_set()
        &&& self.calls() == before.calls().push(call)
        &&& if call is Init {
            &&& self.supplied() == before.supplied() + 1
            &&& self.holds_command()
            &&& self.held_calls() == self.made_calls().push(LifecycleCall::Init)
        } else {
            &&& self.supplied() == before.supplied()
            &&& self.made_calls() == before.made_calls()
            &&& self.holds_command() == before.holds_command()
            &&& self.held_calls() == if before.holds_command() {
                before.held_calls().push(call)
            } else {
                before.held_calls()
            }
        }
    }

    /// A proxy for the commands that `supplier` makes. The requirements are
    /// declared here, once, and hold for every command the supplier makes.
    pub fn new(supplier: impl FnMut() -> Command + 'static, requirements: Vec<SubsystemSUID>) -> (proxy:
        Self)
        ensures
            proxy.requirement_set() == requirements@.to_set(),
            !proxy.holds_command(),
            proxy.calls() == Seq::<LifecycleCall>::empty(),
            proxy.supplied() == 0,
            proxy.asks(supplier),
    {
        ProxyCommand {
            command_supplier: Box::new(supplier),
            command: None,
            requirements: set_of(&requirements),
            calls: Ghost(Seq::empty()),
            supplies: Ghost(0),
            made: Ghost(Seq::empty()),
        }
    }

    /// Drops the command held so far, asks the supplier for a fresh one and
    /// initialises it.
    pub fn init(&mut self)
        ensures
            final(self).ready(),
            final(self).follows(old(self), LifecycleCall::Init),
    {
        self.calls = Ghost(self.calls@.push(LifecycleCall::Init));
        self.command = None;
        let mut place: Option<Box<dyn ProxyTarget>> = None;
        self.command_supplier.supply(&mut place);
        self.supplies = Ghost(self.supplies@ + 1);
        let mut target = place.unwrap();
        self.made = Ghost(target.target_calls());
        target.target_init();
        let held = Some(target);
        self.command = held;
    }

    /// Hands `periodic` on to the command held, with `period`.
    pub fn periodic(&mut self, period: Duration)
        requires
            old(self).ready(),
        ensures
            final(self).settled(),
            final(self).holds_command(),
            final(self).follows(old(self), LifecycleCall::Periodic(period)),
    {
        self.calls = Ghost(self.calls@.push(LifecycleCall::Periodic(period)));
        match &mut self.command {
            Some(target) => target.target_periodic(period),
            None => vstd::pervasive::unreached(),
        }
    }

    /// Ends the command held, if any. A proxy that was never initialised has
    /// nothing to end.
    pub fn end(&mut self, interrupted: bool)
        ensures
            final(self).follows(old(self), LifecycleCall::End(interrupted)),
    {
        self.calls = Ghost(self.calls@.push(LifecycleCall::End(interrupted)));
        match &mut self.command {
            Some(target) => target.target_end(interrupted),
            None => {},
        }
    }

    pub fn is_finished(&mut self) -> (finished: bool)
        requires
            old(self).settled(),
        ensures
            final(self).settled(),
            !finished ==> final(self).ready(),
            old(self).finish_known() matches Some(known) ==> finished == known,
            final(self).holds_command(),
            final(self).follows(old(self), LifecycleCall::IsFinished(finished)),
    {
        let finished = match &mut self.command {
            Some(target) => target.target_is_finished(),
            None => vstd::pervasive::unreached(),
        };
        self.calls = Ghost(self.calls@.push(LifecycleCall::IsFinished(finished)));
        finished
    }

    /// The requirements declared when the proxy was made, each once.
    pub fn get_requirements(&self) -> (list: Vec<SubsystemSUID>)
        ensures
            list@.to_set() == self.requirement_set(),
            list@.no_duplicates(),
    {
        list_of(&self.requirements)
    }

    /// `ProxyCommand(` the held command's name `)`, or `ProxyCommand(?)` while
    /// none is held.
    pub fn get_name(&self) -> (name: String)
        ensures
            name@ == self.name(),
    {
        match &self.command {
            Some(target) => {
                let mut name = String::from_str("ProxyCommand(");
                let inner = target.target_get_name();
                name.append(inner.as_str());
                name.append(")");
                name
            },
            None => String::from_str("ProxyCommand(?)"),
        }
    }
}

/// Collects the requirements of `commands` in a hashed set and hands them
/// out as a list, each once.
fn collect_requirements(commands: &Vec<Command>) -> (list: Vec<SubsystemSUID>)
    ensures
        list@.to_set() == union_requirements(commands@),
        list@.no_duplicates(),
    decreases max_depth(commands@), 2nat,
{
    let mut set: HashSet<SubsystemSUID> = HashSet::new();
    let mut i: usize = 0;
    while i < commands.len()
        invariant
            i <= commands@.len(),
            set@ == union_requirements(commands@.take(i as int)),
        decreases commands@.len() - i,
    {
        proof {
            lemma_depth_bound(commands@, i as int);
        }
        let more = commands[i].get_requirements();
        insert_all(&mut set, &more);
        proof {
            let next = commands@.take(i + 1);
            assert(next.drop_last() =~= commands@.take(i as int));
            assert(next.last() == commands@[i as int]);
        }
        i += 1;
    }
    proof {
        assert(commands@.take(commands@.len() as int) =~= commands@);
    }
    list_of(&set)
}

/// Joins the names of `commands` with `separator` between them.
fn collect_names(commands: &Vec<Command>, separator: &str) -> (text: String)
    ensures
        text@ == join_names(commands@, separator@),
    decreases max_depth(commands@), 2nat,
{
    let mut text = String::new();
    let mut i: usize = 0;
    proof {
        assert(text@ =~= Seq::<char>::empty());
    }
    while i < commands.len()
        invariant
            i <= commands@.len(),
            text@ == join_names(commands@.take(i as int), separator@),
        decreases commands@.len() - i,
    {
        proof {
            lemma_depth_bound(commands@, i as int);
        }
        if i > 0 {
            text.append(separator);
        }
        let name = commands[i].get_name();
        text.append(name.as_str());
        proof {
            let next = commands@.take(i + 1);
            assert(next.drop_last() =~= commands@.take(i as int));
            assert(next.last() == commands@[i as int]);
            if i == 0 {
                assert(text@ =~= next.last().name());
            }
        }
        i += 1;
    }
    proof {
        assert(commands@.take(commands@.len() as int) =~= commands@);
    }
    text
}

fn pair_of(first: Command, second: Command) -> (pair: Vec<Command>)
    ensures
        pair@ == seq![first, second],
{
    let mut pair: Vec<Command> = Vec::new();
    pair.push(first);
    pair.push(second);
    proof {
        assert(pair@ =~= seq![first, second]);
    }
    pair
}

fn led_by(first: Command, others: Vec<Command>) -> (all: Vec<Command>)
    ensures
        all@ == seq![first] + others@,
{
    let ghost followers = others@;
    let mut all: Vec<Command> = Vec::new();
    all.push(first);
    let mut rest = others;
    all.append(&mut rest);
    proof {
        assert(all@ =~= seq![first] + followers);
    }
    all
}

impl Command {
    /// Starts the command.
    pub fn init(&mut self)
        ensures
            final(self).ready(),
            final(self).same_declaration(old(self)),
            final(self).follows(old(self), LifecycleCall::Init),
        decreases old(self).depth(), 1nat,
    {
        match self {
            Command::Parallel(c) => {
                c.init();
                proof {
                    c.lemma_outline(&old(self)->Parallel_0);
                }
            },
            Command::Sequential(c) => {
                c.init();
                proof {
                    c.lemma_outline(&old(self)->Sequential_0);
                }
            },
            Command::Simple(c) => c.init(),
            Command::Const(c) => c.init(),
            Command::Custom(c) => c.init(),
            Command::Named(c) => c.init(),
            Command::Wait(c) => c.init(),
            Command::Proxy(c) => c.init(),
            Command::ExtraRequirments(c) => c.init(),
        }
    }

    /// Runs one cycle of the command.
    pub fn periodic(&mut self, period: Duration)
        requires
            old(self).ready(),
        ensures
            final(self).settled(),
            final(self).same_declaration(old(self)),
            final(self).follows(old(self), LifecycleCall::Periodic(period)),
        decreases old(self).depth(), 1nat,
    {
        match self {
            Command::Parallel(c) => {
                c.periodic(period);
                proof {
                    c.lemma_outline(&old(self)->Parallel_0);
                }
            },
            Command::Sequential(c) => {
                c.periodic(period);
                proof {
                    c.lemma_outline(&old(self)->Sequential_0);
                }
            },
            Command::Simple(c) => c.periodic(period),
            Command::Const(c) => c.periodic(period),
            Command::Custom(c) => c.periodic(period),
            Command::Named(c) => c.periodic(period),
            Command::Wait(c) => c.periodic(period),
            Command::Proxy(c) => c.periodic(period),
            Command::ExtraRequirments(c) => c.periodic(period),
        }
    }

    /// Stops the command; `interrupted` tells whether it was cut short.
    pub fn end(&mut self, interrupted: bool)
        ensures
            final(self).same_declaration(old(self)),
            final(self).follows(old(self), LifecycleCall::End(interrupted)),
        decreases old(self).depth(), 1nat,
    {
        match self {
            Command::Parallel(c) => {
                c.end(interrupted);
                proof {
                    c.lemma_outline(&old(self)->Parallel_0);
                }
            },
            Command::Sequential(c) => {
                c.end(interrupted);
                proof {
                    c.lemma_outline(&old(self)->Sequential_0);
                }
            },
            Command::Simple(c) => c.end(interrupted),
            Command::Const(c) => c.end(interrupted),
            Command::Custom(c) => c.end(interrupted),
            Command::Named(c) => c.end(interrupted),
            Command::Wait(c) => c.end(interrupted),
            Command::Proxy(c) => c.end(interrupted),
            Command::ExtraRequirments(c) => c.end(interrupted),
        }
    }

    /// Asks whether the command is done. An answer of `false` leaves it ready
    /// for the next cycle.
    pub fn is_finished(&mut self) -> (finished: bool)
        requires
            old(self).settled(),
        ensures
            final(self).settled(),
            !finished ==> final(self).ready(),
            old(self).finish_known() matches Some(known) ==> finished == known,
            final(self).same_declaration(old(self)),
            final(self).follows(old(self), LifecycleCall::IsFinished(finished)),
        decreases old(self).depth(), 1nat,
    {
        match self {
            Command::Parallel(c) => {
                let finished = c.is_finished();
                proof {
                    c.lemma_outline(&old(self)->Parallel_0);
                }
                finished
            },
            Command::Sequential(c) => {
                let finished = c.is_finished();
                proof {
                    c.lemma_outline(&old(self)->Sequential_0);
                }
                finished
            },
            Command::Simple(c) => c.is_finished(),
            Command::Const(c) => c.is_finished(),
            Command::Custom(c) => c.is_finished(),
            Command::Named(c) => c.is_finished(),
            Command::Wait(c) => c.is_finished(),
            Command::Proxy(c) => c.is_finished(),
            Command::ExtraRequirments(c) => c.is_finished(),
        }
    }

    /// The subsystems that the command declares, as a list: the declared
    /// list of a leaf, and for a composite or a proxy the members of its
    /// requirement set, each once.
    pub fn get_requirements(&self) -> (list: Vec<SubsystemSUID>)
        ensures
            self.lists(list@),
            list@.to_set() == self.requirement_set(),
        decreases self.depth(), 1nat,
    {
        match self {
            Command::Parallel(c) => c.get_requirements(),
            Command::Sequential(c) => c.get_requirements(),
            Command::Simple(c) => c.get_requirements(),
            Command::Const(c) => c.get_requirements(),
            Command::Custom(c) => c.get_requirements(),
            Command::Named(c) => c.get_requirements(),
            Command::Wait(c) => {
                let list = c.get_requirements();
                proof {
                    assert(list@ =~= Seq::<SubsystemSUID>::empty());
                    assert(list@.to_set() =~= Set::<SubsystemSUID>::empty());
                }
                list
            },
            Command::Proxy(c) => c.get_requirements(),
            Command::ExtraRequirments(c) => c.get_requirements(),
        }
    }

    /// Whether the command, once it owns a subsystem, refuses to give it up.
    pub fn cancel_incoming(&self) -> (refuses: bool)
        ensures
            refuses == self.cancels_incoming(),
        decreases self.depth(), 1nat,
    {
        match self {
            Command::Custom(c) => c.cancel_incoming(),
            Command::Named(c) => c.command.cancel_incoming(),
            Command::ExtraRequirments(c) => c.command.cancel_incoming(),
            _ => false,
        }
    }

    /// Whether the command asks to run while the robot is disabled.
    pub fn run_when_disabled(&self) -> (runs: bool)
        ensures
            runs == self.runs_when_disabled(),
        decreases self.depth(), 1nat,
    {
        match self {
            Command::Custom(c) => c.run_when_disabled(),
            Command::Named(c) => c.command.run_when_disabled(),
            Command::ExtraRequirments(c) => c.command.run_when_disabled(),
            _ => false,
        }
    }

    /// The command's name.
    pub fn get_name(&self) -> (name: String)
        ensures
            name@ == self.name(),
        decreases self.depth(), 1nat,
    {
        match self {
            Command::Parallel(c) => c.get_name(),
            Command::Sequential(c) => c.get_name(),
            Command::Simple(_) => String::from_str("unnamed"),
            Command::Const(_) => String::from_str("unnamed"),
            Command::Custom(c) => c.get_name(),
            Command::Named(c) => c.get_name(),
            Command::Wait(c) => c.get_name(),
            Command::Proxy(c) => c.get_name(),
            Command::ExtraRequirments(c) => c.get_name(),
        }
    }
}

impl ProxyTarget for Command {
    open spec fn target_ready(&self) -> bool {
        self.ready()
    }

    open spec fn target_settled(&self) -> bool {
        self.settled()
    }

    open spec fn target_finish_known(&self) -> Option<bool> {
        self.finish_known()
    }

    open spec fn target_name(&self) -> Seq<char> {
        self.name()
    }

    open spec fn target_calls(&self) -> Seq<LifecycleCall> {
        self.calls()
    }

    fn target_init(&mut self) {
        self.init()
    }

    fn target_periodic(&mut self, period: Duration) {
        self.periodic(period)
    }

    fn target_is_finished(&mut self) -> (finished: bool) {
        self.is_finished()
    }

    fn target_end(&mut self, interrupted: bool) {
        self.end(interrupted)
    }

    fn target_get_name(&self) -> (name: String) {
        self.get_name()
    }
}

impl Command {
    /// Whether the command is a parallel composite of exactly `children`,
    /// none of them finished, finishing on the first (`race`) or on the last.
    pub open spec fn is_parallel_of(&self, children: Seq<Command>, race: bool) -> bool {
        &&& self matches Command::Parallel(parallel)
        &&& parallel.children() == children
        &&& parallel.is_race() == race
        &&& forall|i: int| !parallel.is_done(i)
        &&& self.requirement_set() == union_requirements(children)
        &&& self.calls() == Seq::<LifecycleCall>::empty()
    }

    /// Whether the command is a sequence of exactly `children` with the
    /// cursor on the first.
    pub open spec fn is_sequence_of(&self, children: Seq<Command>) -> bool {
        &&& self matches Command::Sequential(sequential)
        &&& sequential.children() == children
        &&& sequential.cursor() == 0
        &&& self.requirement_set() == union_requirements(children)
        &&& self.calls() == Seq::<LifecycleCall>::empty()
    }

    /// Constructs a parallel command of `self` and `other`.
    pub fn along_with(self, other: Self) -> (composite: Self)
        ensures
            composite.is_parallel_of(seq![self, other], false),
            composite.requirement_set() == self.requirement_set().union(other.requirement_set()),
    {
        proof {
            lemma_union_of_two(self, other);
        }
        Command::Parallel(ParallelCommand::of(pair_of(self, other), false))
    }

    /// Constructs a parallel command of `self` and `others`.
    pub fn along_with_many(self, others: Vec<Self>) -> (composite: Self)
        ensures
            composite.is_parallel_of(seq![self] + others@, false),
    {
        Command::Parallel(ParallelCommand::of(led_by(self, others), false))
    }

    /// Constructs a parallel command of `self` and `other` that finishes when
    /// one of them finishes.
    pub fn race_with(self, other: Self) -> (composite: Self)
        ensures
            composite.is_parallel_of(seq![self, other], true),
            composite.requirement_set() == self.requirement_set().union(other.requirement_set()),
    {
        proof {
            lemma_union_of_two(self, other);
        }
        Command::Parallel(ParallelCommand::of(pair_of(self, other), true))
    }

    /// Constructs a parallel command of `self` and `others` that finishes
    /// when one of them finishes.
    pub fn race_with_many(self, others: Vec<Self>) -> (composite: Self)
        ensures
            composite.is_parallel_of(seq![self] + others@, true),
    {
        Command::Parallel(ParallelCommand::of(led_by(self, others), true))
    }

    /// Races `self` against a wait of `duration`.
    pub fn timeout(self, duration: Duration) -> (composite: Self)
        ensures
            exists|wait: Command|
                #![trigger wait.is_wait_of(duration)]
                {
                    &&& wait.is_wait_of(duration)
                    &&& composite.is_parallel_of(seq![self, wait], true)
                },
            composite.requirement_set() == self.requirement_set(),
    {
        let wait = Command::wait_for(duration);
        proof {
            assert(self.requirement_set().union(wait.requirement_set()) =~= self.requirement_set());
        }
        self.race_with(wait)
    }

    /// Constructs a sequential command: `self` runs first, then `other`.
    pub fn before(self, other: Self) -> (composite: Self)
        ensures
            composite.is_sequence_of(seq![self, other]),
            composite.requirement_set() == self.requirement_set().union(other.requirement_set()),
    {
        proof {
            lemma_union_of_two(self, other);
        }
        Command::Sequential(SequentialCommand::of(pair_of(self, other)))
    }

    /// Constructs a sequential command: `self` runs first, then `other`.
    /// The same as [`Command::before`].
    pub fn and_then(self, other: Self) -> (composite: Self)
        ensures
            composite.is_sequence_of(seq![self, other]),
            composite.requirement_set() == self.requirement_set().union(other.requirement_set()),
    {
        self.before(other)
    }

    /// Constructs a sequential command: `other` runs first, then `self`.
    pub fn after(self, other: Self) -> (composite: Self)
        ensures
            composite.is_sequence_of(seq![other, self]),
            composite.requirement_set() == self.requirement_set().union(other.requirement_set()),
    {
        proof {
            lemma_union_of_two(other, self);
            assert(other.requirement_set().union(self.requirement_set())
                =~= self.requirement_set().union(other.requirement_set()));
        }
        Command::Sequential(SequentialCommand::of(pair_of(other, self)))
    }

    /// Constructs a sequential command: `self` runs first, then `others` in
    /// order.
    pub fn and_then_many(self, others: Vec<Self>) -> (composite: Self)
        ensures
            composite.is_sequence_of(seq![self] + others@),
    {
        Command::Sequential(SequentialCommand::of(led_by(self, others)))
    }

    /// Gives `self` the name `name`.
    pub fn with_name(self, name: &str) -> (named: Self)
        ensures
            named matches Command::Named(wrapper) && wrapper.inner() == self && wrapper.name()
                == name@,
            named.name() == name@,
            named.requirement_set() == self.requirement_set(),
            named.cancels_incoming() == self.cancels_incoming(),
            named.runs_when_disabled() == self.runs_when_disabled(),
            named.calls() == self.calls(),
    {
        Command::Named(NamedCommand { name: String::from_str(name), command: Box::new(self) })
    }

    /// Widens the requirement set of `self` by `suids`.
    pub fn with_extra_suids(self, suids: Vec<SubsystemSUID>) -> (widened: Self)
        ensures
            widened matches Command::ExtraRequirments(wrapper) && wrapper.inner() == self
                && wrapper.extra() == suids@,
            widened.requirement_set() == self.requirement_set().union(suids@.to_set()),
            widened.name() == self.name(),
            widened.cancels_incoming() == self.cancels_incoming(),
            widened.runs_when_disabled() == self.runs_when_disabled(),
            widened.calls() == self.calls(),
    {
        Command::ExtraRequirments(
            ExtraRequirementsCommand { command: Box::new(self), requirements: suids },
        )
    }

    /// Widens the requirement set of `self` by the subsystems given, each
    /// asked for its identifier.
    pub fn with_extra_requirements(self, subsystems: Requirements) -> (widened: Self)
        ensures
            widened matches Command::ExtraRequirments(wrapper) && wrapper.inner() == self
                && wrapper.extra().len() == subsystems@.len() && widened.requirement_set()
                == self.requirement_set().union(wrapper.extra().to_set()),
            self.requirement_set().subset_of(widened.requirement_set()),
            widened.name() == self.name(),
            widened.cancels_incoming() == self.cancels_incoming(),
            widened.runs_when_disabled() == self.runs_when_disabled(),
            widened.calls() == self.calls(),
    {
        let suids = suids_of(subsystems);
        self.with_extra_suids(suids)
    }

    /// Whether the command is a wait of `duration` that has not started.
    pub open spec fn is_wait_of(&self, duration: Duration) -> bool {
        &&& self matches Command::Wait(wait)
        &&& wait.duration() == duration
        &&& !wait.started()
        &&& self.calls() == Seq::<LifecycleCall>::empty()
    }

    /// Constructs a command that waits for `duration`.
    pub fn wait_for(duration: Duration) -> (wait: Self)
        ensures
            wait.is_wait_of(duration),
            wait.requirement_set() == Set::<SubsystemSUID>::empty(),
    {
        Command::Wait(WaitCommand::new(duration))
    }

    /// Wraps a command written as a type of the client's own.
    pub fn custom(command: Box<dyn CommandTrait>) -> (custom: Self)
        ensures
            custom is Custom,
            custom.calls() == Seq::<LifecycleCall>::empty(),
    {
        Command::Custom(CustomCommand::new(command))
    }

    /// Runs `commands` side by side; finishes when all of them have.
    ///
    /// The children do not run at the same time: within a cycle they run one
    /// after the other, in the order given, but each of them runs in every
    /// cycle.
    pub fn parallel(commands: Vec<Command>) -> (composite: Command)
        ensures
            composite.is_parallel_of(commands@, false),
    {
        Command::Parallel(ParallelCommand::of(commands, false))
    }

    /// Runs `commands` side by side; finishes when the first of them has.
    pub fn race(commands: Vec<Command>) -> (composite: Command)
        ensures
            composite.is_parallel_of(commands@, true),
    {
        Command::Parallel(ParallelCommand::of(commands, true))
    }

    /// Runs `commands` one after the other.
    pub fn sequential(commands: Vec<Command>) -> (composite: Command)
        ensures
            composite.is_sequence_of(commands@),
    {
        Command::Sequential(SequentialCommand::of(commands))
    }
}

/// Laws of the lifecycle.
impl Command {
    /// Whatever the call, the command that follows has it on record and
    /// declares what it declared before.
    pub proof fn lemma_follows(&self, before: &Command, call: LifecycleCall)
        requires
            self.follows(before, call),
        ensures
            self.calls() == before.calls().push(call),
            self.same_declaration(before),
    {
        match (self, before) {
            (Command::Parallel(c), Command::Parallel(b)) => {
                c.lemma_outline(b);
            },
            (Command::Sequential(c), Command::Sequential(b)) => {
                c.lemma_outline(b);
            },
            _ => {},
        }
    }

    /// A cycle leaves its calls on record, in order, and changes nothing of
    /// what the command declares.
    pub proof fn lemma_cycled(&self, before: &Command, period: Duration, finished: bool)
        requires
            self.cycled(before, period, finished),
        ensures
            self.calls() == before.calls() + cycle_calls(period, finished),
            self.same_declaration(before),
    {
        let (ran, asked) = choose|ran: Command, asked: Command|
            #![trigger asked.same_declaration(&ran)]
            {
                &&& ran.same_declaration(before)
                &&& asked.same_declaration(&ran)
                &&& self.cycled_through(before, &ran, &asked, period, finished)
            };
        ran.lemma_follows(before, LifecycleCall::Periodic(period));
        asked.lemma_follows(&ran, LifecycleCall::IsFinished(finished));
        if finished {
            self.lemma_follows(&asked, LifecycleCall::End(false));
        }
        lemma_cycle_calls(before.calls(), period);
    }
}

/// The bound of a timeout.
impl Command {
    /// A wait that has gone through a cycle finished in that cycle exactly
    /// if the time it read then had reached its duration.
    pub proof fn lemma_wait_cycled(&self, before: &Command, period: Duration, finished: bool)
        requires
            before is Wait,
            self.cycled(before, period, finished),
        ensures
            self matches Command::Wait(wait) && finished == wait.time_is_up(),
    {
        let (ran, asked) = choose|ran: Command, asked: Command|
            #![trigger asked.same_declaration(&ran)]
            {
                &&& ran.same_declaration(before)
                &&& asked.same_declaration(&ran)
                &&& self.cycled_through(before, &ran, &asked, period, finished)
            };
        assert(ran is Wait);
        assert(asked is Wait);
    }
}

impl ParallelCommand {
    /// A race against a wait is over once the time of the wait is up: after
    /// a cycle in which a wait among the children, still running, read a
    /// time that had reached its duration, the race is finished, whatever
    /// the other children answered.
    pub proof fn lemma_timeout(&self, before: &Self, period: Duration, child: int)
        requires
            before.is_race(),
            self.follows(before, LifecycleCall::Periodic(period)),
            0 <= child < before.children().len(),
            !before.is_done(child),
            before.children()[child] is Wait,
            self.children()[child] matches Command::Wait(wait) && wait.time_is_up(),
        ensures
            self.all_or_any_finished(),
    {
        let now = self.children()[child];
        assert(now.cycled(&before.children()[child], period, self.is_done(child)));
        now.lemma_wait_cycled(&before.children()[child], period, self.is_done(child));
        assert(self.is_done(child));
    }
}

/// Laws of the composites.
impl Command {
    /// The children of a composite; none for any other command.
    pub open spec fn children(&self) -> Seq<Command> {
        match self {
            Command::Parallel(c) => c.children(),
            Command::Sequential(c) => c.children(),
            _ => Seq::empty(),
        }
    }

    /// A composite requires exactly what its children require: a subsystem
    /// is in its requirement set if and only if it is in that of a child.
    pub proof fn lemma_composite_requirements(&self, suid: SubsystemSUID)
        requires
            self is Parallel || self is Sequential,
        ensures
            self.requirement_set() == union_requirements(self.children()),
            self.requirement_set().contains(suid) <==> exists|i: int|
                0 <= i < self.children().len() && (#[trigger] self.children()[i]).requirement_set().contains(
                    suid,
                ),
    {
        lemma_union_requirements(self.children(), suid);
    }

    /// The requirement set of a sequence does not depend on the cursor: it
    /// is that of all children, for as long as the sequence lives.
    pub proof fn lemma_sequence_holds_all(&self, child: int, suid: SubsystemSUID)
        requires
            self is Sequential,
            0 <= child < self.children().len(),
            self.children()[child].requirement_set().contains(suid),
        ensures
            self.requirement_set().contains(suid),
    {
        lemma_union_requirements(self.children(), suid);
    }
}

} // verus!
