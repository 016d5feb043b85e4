use std::cell::Cell;
use std::rc::Rc;

use frclib_commands::{
    BooleanSupplier, Command, CommandIndex, Condition, ConditionalScheduler, Edge,
};

fn counted(value: bool, calls: &Rc<Cell<usize>>) -> impl Fn() -> bool + 'static {
    let calls = calls.clone();
    move || {
        calls.set(calls.get() + 1);
        value
    }
}

#[test]
fn condition_is_its_predicate() {
    let value = Rc::new(Cell::new(false));
    let seen = value.clone();
    let condition = Condition::new(move || seen.get());
    assert!(!condition.get_as_boolean());
    value.set(true);
    assert!(condition.get_as_boolean());
}

#[test]
fn and_truth_table() {
    for (left, right) in [(false, false), (false, true), (true, false), (true, true)] {
        let condition = Condition::new(move || left).and(move || right);
        assert_eq!(condition.get_as_boolean(), left && right);
    }
}

#[test]
fn or_truth_table() {
    for (left, right) in [(false, false), (false, true), (true, false), (true, true)] {
        let condition = Condition::new(move || left).or(move || right);
        assert_eq!(condition.get_as_boolean(), left || right);
    }
}

#[test]
fn negate_truth_table() {
    assert!(Condition::new(|| false).negate().get_as_boolean());
    assert!(!Condition::new(|| true).negate().get_as_boolean());
    assert!(Condition::new(|| true).negate().negate().get_as_boolean());
}

#[test]
fn and_skips_the_second_when_the_first_is_false() {
    let calls = Rc::new(Cell::new(0usize));
    let condition = Condition::new(|| false).and(counted(true, &calls));
    assert!(!condition.get_as_boolean());
    assert_eq!(calls.get(), 0);
    let condition = Condition::new(|| true).and(counted(true, &calls));
    assert!(condition.get_as_boolean());
    assert_eq!(calls.get(), 1);
}

#[test]
fn or_skips_the_second_when_the_first_is_true() {
    let calls = Rc::new(Cell::new(0usize));
    let condition = Condition::new(|| true).or(counted(false, &calls));
    assert!(condition.get_as_boolean());
    assert_eq!(calls.get(), 0);
    let condition = Condition::new(|| false).or(counted(false, &calls));
    assert!(!condition.get_as_boolean());
    assert_eq!(calls.get(), 1);
}

#[test]
fn combinators_leave_the_condition_usable() {
    let calls = Rc::new(Cell::new(0usize));
    let base = Condition::new(counted(true, &calls));
    let both = base.and(|| false);
    let either = base.or(|| false);
    let not = base.negate();
    assert!(base.get_as_boolean());
    assert!(!both.get_as_boolean());
    assert!(either.get_as_boolean());
    assert!(!not.get_as_boolean());
    assert!(base.clone().get_as_boolean());
    // Copies share the predicate: every evaluation above asked the same closure.
    assert_eq!(calls.get(), 5);
}

#[test]
fn nested_formula() {
    let a = Rc::new(Cell::new(false));
    let b = Rc::new(Cell::new(false));
    let (seen_a, seen_b) = (a.clone(), b.clone());
    // (a and not-yet b) or fallback
    let condition = Condition::new(move || seen_a.get()).and(move || !seen_b.get()).or(|| false).negate();
    assert!(condition.get_as_boolean());
    a.set(true);
    assert!(!condition.get_as_boolean());
    b.set(true);
    assert!(condition.get_as_boolean());
}

#[test]
fn rising_edge_fires_once_per_edge() {
    let mut scheduler = ConditionalScheduler::new(Condition::new(|| true), Edge::Rising, Command::empty());
    let handle = CommandIndex::PreservedCommand(3);
    let _command = scheduler.exchange(handle);
    assert_eq!(scheduler.observe(false), None);
    assert_eq!(scheduler.observe(true), Some(handle));
    assert_eq!(scheduler.observe(true), None);
    assert_eq!(scheduler.observe(false), None);
    assert_eq!(scheduler.observe(true), Some(handle));
}

#[test]
fn falling_edge_fires_once_per_edge() {
    let mut scheduler = ConditionalScheduler::new(Condition::new(|| true), Edge::Falling, Command::empty());
    let handle = CommandIndex::PreservedCommand(0);
    let _command = scheduler.exchange(handle);
    // No value has been seen yet, which counts as false: no edge.
    assert_eq!(scheduler.observe(false), None);
    assert_eq!(scheduler.observe(true), None);
    assert_eq!(scheduler.observe(false), Some(handle));
    assert_eq!(scheduler.observe(false), None);
    assert_eq!(scheduler.observe(true), None);
    assert_eq!(scheduler.observe(false), Some(handle));
}

#[test]
fn first_value_true_is_a_rising_edge() {
    let mut scheduler = ConditionalScheduler::new(Condition::new(|| true), Edge::Rising, Command::empty());
    let handle = CommandIndex::PreservedCommand(1);
    let _command = scheduler.exchange(handle);
    assert_eq!(scheduler.poll(), Some(handle));
    assert_eq!(scheduler.poll(), None);
}

#[test]
fn unregistered_scheduler_yields_nothing() {
    let mut scheduler = ConditionalScheduler::new(Condition::new(|| true), Edge::Rising, Command::empty());
    assert_eq!(scheduler.observe(true), None);
}

#[test]
fn exchange_hands_the_command_over() {
    let mut scheduler = ConditionalScheduler::new(
        Condition::new(|| false),
        Edge::Rising,
        Command::empty().with_name("kept"),
    );
    let command = scheduler.exchange(CommandIndex::PreservedCommand(0));
    assert_eq!(command.get_name(), "kept");
}
