//! Conditions: predicates that start a command when their value changes.
//!
//! A [`Condition`] is built from client predicates with `and`, `or` and
//! `negate`. `on_true` and `on_false` pair a condition with a command in a
//! [`ConditionalScheduler`], which remembers the last value it saw and fires
//! on the edge: `on_true` when the value goes from false to true, `on_false`
//! when it goes from true to false.
//!
//! What a predicate answers is the client's affair, but a predicate may come
//! with a contract of its own. [`BooleanSupplier::admits`] says which
//! answers a supplier can give: for a closure, those that its contract
//! allows; for a condition, those that `and`, `or` and `negate` make of what
//! its operands can answer. Evaluation returns a value that the condition
//! admits, so a condition over predicates that are known is known too.

use std::rc::Rc;
use vstd::prelude::*;

use crate::commands::Command;
use crate::context::{add_cond_scheduler, SchedulerContext};
use crate::state::CommandIndex;

verus! {

/// A predicate supplied by the client.
///
/// The answer may change from one call to the next. What is known of it is
/// what the supplier itself says it can answer.
pub trait BooleanSupplier {
    /// Whether the supplier can answer `value`.
    spec fn admits(&self, value: bool) -> bool;

    fn get_as_boolean(&self) -> (value: bool)
        ensures
            self.admits(value),
    ;
}

/// Whether the closure `predicate` can answer `value`: where its own
/// contract lets it be called, `value` is an answer that this contract
/// allows. A closure without a contract can answer either way.
pub open spec fn closure_admits<F: Fn() -> bool>(predicate: F, value: bool) -> bool {
    call_requires(predicate, ()) ==> call_ensures(predicate, (), value)
}

/// Whether an `and` can have the value `value`, given whether its first
/// operand can be false, whether it can be true, and whether its second
/// operand can answer `value`. The second operand is asked only after the
/// first has held.
pub open spec fn and_admits(first_false: bool, first_true: bool, second: bool, value: bool) -> bool {
    (first_false && !value) || (first_true && second)
}

/// Whether an `or` can have the value `value`, given whether its first
/// operand can be false, whether it can be true, and whether its second
/// operand can answer `value`. The second operand is asked only after the
/// first has failed.
pub open spec fn or_admits(first_false: bool, first_true: bool, second: bool, value: bool) -> bool {
    (first_true && value) || (first_false && second)
}

/// Trusted: `Fn::call` on a client predicate. The answer is one that the
/// closure's own contract allows, where that contract lets the closure be
/// called; of a closure without a contract nothing is claimed.
#[verifier::external_body]
fn run_predicate<F: Fn() -> bool>(predicate: &F) -> (answer: bool)
    ensures
        call_requires(*predicate, ()) ==> call_ensures(*predicate, (), answer),
{
    predicate()
}

impl<F: Fn() -> bool> BooleanSupplier for F {
    open spec fn admits(&self, value: bool) -> bool {
        closure_admits(*self, value)
    }

    fn get_as_boolean(&self) -> (value: bool) {
        run_predicate(self)
    }
}

enum ConditionNode {
    Test(Box<dyn BooleanSupplier>),
    Both(Condition, Box<dyn BooleanSupplier>),
    Either(Condition, Box<dyn BooleanSupplier>),
    Not(Condition),
}

/// A boolean condition over client predicates. Cheap to copy: copies share
/// the predicates.
pub struct Condition {
    node: Rc<ConditionNode>,
}

/// Trusted: `Rc::clone`, which hands out another pointer to the same value.
#[verifier::external_body]
fn share_node(node: &Rc<ConditionNode>) -> (shared: Rc<ConditionNode>)
    ensures
        shared == *node,
{
    Rc::clone(node)
}

impl ConditionNode {
    spec fn admits(&self, value: bool) -> bool
        decreases self,
    {
        match self {
            ConditionNode::Test(test) => test.admits(value),
            ConditionNode::Both(inner, test) => and_admits(
                inner.node.admits(false),
                inner.node.admits(true),
                test.admits(value),
                value,
            ),
            ConditionNode::Either(inner, test) => or_admits(
                inner.node.admits(false),
                inner.node.admits(true),
                test.admits(value),
                value,
            ),
            ConditionNode::Not(inner) => inner.node.admits(!value),
        }
    }

    spec fn height(&self) -> nat
        decreases self,
    {
        match self {
            ConditionNode::Test(_) => 0,
            ConditionNode::Both(inner, _) => inner.node.height() + 1,
            ConditionNode::Either(inner, _) => inner.node.height() + 1,
            ConditionNode::Not(inner) => inner.node.height() + 1,
        }
    }
}

impl Clone for Condition {
    fn clone(&self) -> (copy: Self)
        ensures
            copy == *self,
    {
        Condition { node: share_node(&self.node) }
    }
}

impl BooleanSupplier for Condition {
    /// Whether the condition can have the value `value`, by what its
    /// predicates can answer: the constructors say how.
    closed spec fn admits(&self, value: bool) -> bool {
        self.node.admits(value)
    }

    /// Asks the predicates, left to right, skipping the second operand of an
    /// `and` whose first is false and of an `or` whose first is true.
    fn get_as_boolean(&self) -> (value: bool) {
        self.sample()
    }
}

impl Condition {
    /// Evaluates the condition.
    fn sample(&self) -> (value: bool)
        ensures
            self.admits(value),
        decreases self.node.height(),
    {
        match &*self.node {
            ConditionNode::Test(test) => test.get_as_boolean(),
            ConditionNode::Both(inner, test) => {
                if inner.sample() {
                    test.get_as_boolean()
                } else {
                    false
                }
            },
            ConditionNode::Either(inner, test) => {
                if inner.sample() {
                    true
                } else {
                    test.get_as_boolean()
                }
            },
            ConditionNode::Not(inner) => !inner.sample(),
        }
    }

    /// The condition that holds when `cond` answers true.
    pub fn new<F: Fn() -> bool + 'static>(cond: F) -> (condition: Self)
        ensures
            forall|value: bool| #[trigger] condition.admits(value) == closure_admits(cond, value),
    {
        Condition { node: Rc::new(ConditionNode::Test(Box::new(cond))) }
    }

    /// The condition that holds when `self` holds and then `cond` answers
    /// true. `cond` is not asked when `self` does not hold.
    #[must_use]
    pub fn and<F: Fn() -> bool + 'static>(&self, cond: F) -> (condition: Self)
        ensures
            forall|value: bool| #[trigger]
                condition.admits(value) == and_admits(
                    self.admits(false),
                    self.admits(true),
                    closure_admits(cond, value),
                    value,
                ),
    {
        Condition { node: Rc::new(ConditionNode::Both(self.clone(), Box::new(cond))) }
    }

    /// The condition that holds when `self` holds or else `cond` answers
    /// true. `cond` is not asked when `self` holds.
    #[must_use]
    pub fn or<F: Fn() -> bool + 'static>(&self, cond: F) -> (condition: Self)
        ensures
            forall|value: bool| #[trigger]
                condition.admits(value) == or_admits(
                    self.admits(false),
                    self.admits(true),
                    closure_admits(cond, value),
                    value,
                ),
    {
        Condition { node: Rc::new(ConditionNode::Either(self.clone(), Box::new(cond))) }
    }

    /// The condition that holds when `self` does not.
    #[must_use]
    pub fn negate(&self) -> (condition: Self)
        ensures
            forall|value: bool| #[trigger] condition.admits(value) == self.admits(!value),
    {
        Condition { node: Rc::new(ConditionNode::Not(self.clone())) }
    }
}

/// Which change of a condition's value starts the command.
#[derive(Debug, Clone, Copy, PartialEq, Eq, Structural)]
pub enum Edge {
    /// From false to true.
    Rising,
    /// From true to false.
    Falling,
}

/// Whether a change from `previous` to `current` is the edge looked for.
pub open spec fn edge_fires(edge: Edge, previous: bool, current: bool) -> bool {
    match edge {
        Edge::Rising => !previous && current,
        Edge::Falling => previous && !current,
    }
}

/// A condition paired with the command it starts.
///
/// Before registration it holds the command; the scheduler exchanges the
/// command for the handle of the slot in which it keeps it.
pub struct ConditionalScheduler {
    condition: Condition,
    edge: Edge,
    last_poll: bool,
    command_slot: Option<Command>,
    idx_slot: Option<CommandIndex>,
}

impl ConditionalScheduler {
    pub closed spec fn condition(&self) -> Condition {
        self.condition
    }

    pub closed spec fn edge(&self) -> Edge {
        self.edge
    }

    /// The value seen at the last poll; false before the first.
    pub closed spec fn last_value(&self) -> bool {
        self.last_poll
    }

    /// The command, while the scheduler still holds it.
    pub closed spec fn held_command(&self) -> Option<Command> {
        self.command_slot
    }

    /// The handle of the command, once it is registered.
    pub closed spec fn handle(&self) -> Option<CommandIndex> {
        self.idx_slot
    }

    /// The scheduler that pairs `condition` with `command` and has seen no
    /// value yet.
    pub closed spec fn fresh(condition: Condition, edge: Edge, command: Command) -> Self {
        ConditionalScheduler {
            condition,
            edge,
            last_poll: false,
            command_slot: Some(command),
            idx_slot: None,
        }
    }

    /// What a fresh scheduler holds.
    pub proof fn lemma_fresh(condition: Condition, edge: Edge, command: Command)
        ensures
            Self::fresh(condition, edge, command).condition() == condition,
            Self::fresh(condition, edge, command).edge() == edge,
            !Self::fresh(condition, edge, command).last_value(),
            Self::fresh(condition, edge, command).held_command() == Some(command),
            Self::fresh(condition, edge, command).handle() is None,
    {
    }

    /// Pairs `condition` with `command`. The scheduler has seen no value yet,
    /// which counts as false.
    #[must_use]
    pub fn new(condition: Condition, edge: Edge, command: Command) -> (scheduler: Self)
        ensures
            scheduler == Self::fresh(condition, edge, command),
    {
        ConditionalScheduler {
            condition,
            edge,
            last_poll: false,
            command_slot: Some(command),
            idx_slot: None,
        }
    }

    /// The scheduler once it has given up its command for the handle `idx`.
    pub closed spec fn registered_as(self, idx: CommandIndex) -> Self {
        ConditionalScheduler { command_slot: None, idx_slot: Some(idx), ..self }
    }

    /// What registration changes, and what it leaves.
    pub proof fn lemma_registered_as(self, idx: CommandIndex)
        ensures
            self.registered_as(idx).held_command() is None,
            self.registered_as(idx).handle() == Some(idx),
            self.registered_as(idx).condition() == self.condition(),
            self.registered_as(idx).edge() == self.edge(),
            self.registered_as(idx).last_value() == self.last_value(),
    {
    }

    /// Whether the scheduler still holds its command.
    pub fn holds_command(&self) -> (held: bool)
        ensures
            held == self.held_command() is Some,
    {
        self.command_slot.is_some()
    }

    /// Gives up the command in exchange for the handle under which the
    /// scheduler keeps it.
    pub fn exchange(&mut self, idx: CommandIndex) -> (command: Command)
        requires
            old(self).held_command() is Some,
        ensures
            Some(command) == old(self).held_command(),
            *final(self) == old(self).registered_as(idx),
    {
        self.idx_slot = Some(idx);
        self.command_slot.take().unwrap()
    }

    /// The scheduler after it has seen `sample`.
    pub closed spec fn after_sample(self, sample: bool) -> Self {
        ConditionalScheduler { last_poll: sample, ..self }
    }

    /// What seeing a value changes, and what it leaves.
    pub proof fn lemma_after_sample(self, sample: bool)
        ensures
            self.after_sample(sample).last_value() == sample,
            self.after_sample(sample).condition() == self.condition(),
            self.after_sample(sample).edge() == self.edge(),
            self.after_sample(sample).held_command() == self.held_command(),
            self.after_sample(sample).handle() == self.handle(),
    {
    }

    /// What a poll yields when the condition's value is `sample`: the handle
    /// if the value has just changed the way the edge asks, nothing
    /// otherwise.
    pub open spec fn yields(&self, sample: bool) -> Option<CommandIndex> {
        if edge_fires(self.edge(), self.last_value(), sample) {
            self.handle()
        } else {
            None
        }
    }

    /// Records `sample` as the latest value and tells whether the command is
    /// to be started.
    pub fn observe(&mut self, sample: bool) -> (fired: Option<CommandIndex>)
        ensures
            *final(self) == old(self).after_sample(sample),
            fired == old(self).yields(sample),
    {
        let previous = self.last_poll;
        self.last_poll = sample;
        let fires = match self.edge {
            Edge::Rising => !previous && sample,
            Edge::Falling => previous && !sample,
        };
        if fires {
            self.idx_slot
        } else {
            None
        }
    }

    /// Whether `sample` can be what the condition answers.
    pub open spec fn may_sample(&self, sample: bool) -> bool {
        self.condition().admits(sample)
    }

    /// Asks the condition and [observes](Self::observe) its value, which is
    /// one that the condition can have.
    pub fn poll(&mut self) -> (fired: Option<CommandIndex>)
        ensures
            exists|sample: bool|
                {
                    &&& old(self).may_sample(sample)
                    &&& *final(self) == #[trigger] old(self).after_sample(sample)
                    &&& fired == old(self).yields(sample)
                },
    {
        let sample = self.condition.get_as_boolean();
        proof {
            assert(self.may_sample(sample));
        }
        self.observe(sample)
    }
}


impl Condition {
    /// Pairs the condition with `command` and hands the pair to `context`.
    fn register(&self, context: &mut SchedulerContext, edge: Edge, command: Command) -> (condition:
        Self)
        requires
            old(context).is_bound(),
        ensures
            condition == *self,
            final(context).is_bound(),
            final(context).pending_commands() == old(context).pending_commands(),
            final(context).pending_conditions() == old(context).pending_conditions().push(
                ConditionalScheduler::fresh(*self, edge, command),
            ),
    {
        let scheduler = ConditionalScheduler::new(self.clone(), edge, command);
        add_cond_scheduler(context, scheduler).unwrap();
        self.clone()
    }

    /// Starts `command` each time the condition goes from false to true.
    ///
    /// The pair goes to the queue of `context`, which must have a
    /// scheduler, and is registered at the next tick. The command starts
    /// once per edge, not while the condition stays true.
    pub fn on_true(&self, context: &mut SchedulerContext, command: Command) -> (condition: Self)
        requires
            old(context).is_bound(),
        ensures
            condition == *self,
            final(context).is_bound(),
            final(context).pending_commands() == old(context).pending_commands(),
            final(context).pending_conditions() == old(context).pending_conditions().push(
                ConditionalScheduler::fresh(*self, Edge::Rising, command),
            ),
    {
        self.register(context, Edge::Rising, command)
    }

    /// Starts `command` each time the condition goes from true to false.
    ///
    /// The pair goes to the queue of `context`, which must have a
    /// scheduler, and is registered at the next tick. The command starts
    /// once per edge, not while the condition stays false.
    pub fn on_false(&self, context: &mut SchedulerContext, command: Command) -> (condition: Self)
        requires
            old(context).is_bound(),
        ensures
            condition == *self,
            final(context).is_bound(),
            final(context).pending_commands() == old(context).pending_commands(),
            final(context).pending_conditions() == old(context).pending_conditions().push(
                ConditionalScheduler::fresh(*self, Edge::Falling, command),
            ),
    {
        self.register(context, Edge::Falling, command)
    }
}

} // verus!
