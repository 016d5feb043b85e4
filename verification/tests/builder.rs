use std::cell::RefCell;
use std::rc::Rc;
use std::time::Duration;

use frclib_commands::{Command, CommandBuilder, SubsystemRequirement, SubsystemSUID};

type Log = Rc<RefCell<Vec<String>>>;

fn new_log() -> Log {
    Rc::new(RefCell::new(Vec::new()))
}

fn init_of(log: &Log) -> impl FnMut() + 'static {
    let log = log.clone();
    move || log.borrow_mut().push("init".to_owned())
}

fn periodic_of(log: &Log) -> impl FnMut(Duration) + 'static {
    let log = log.clone();
    move |_| log.borrow_mut().push("periodic".to_owned())
}

fn end_of(log: &Log) -> impl FnMut(bool) + 'static {
    let log = log.clone();
    move |interrupted| log.borrow_mut().push(format!("end({})", interrupted))
}

fn finished_of(log: &Log) -> impl FnMut() -> bool + 'static {
    let log = log.clone();
    move || {
        log.borrow_mut().push("is_finished".to_owned());
        true
    }
}

/// Drives a command through one full lifecycle and returns whether it
/// reported finished.
fn drive(command: &mut Command) -> bool {
    command.init();
    command.periodic(Duration::from_millis(5));
    let finished = command.is_finished();
    command.end(false);
    finished
}

struct Handle(SubsystemSUID);

impl SubsystemRequirement for Handle {
    fn suid(&self) -> SubsystemSUID {
        self.0
    }
}

#[test]
fn new_builder_builds_a_command_without_hooks() {
    let mut command = CommandBuilder::new().build();
    assert!(!drive(&mut command));
    assert!(command.get_requirements().is_empty());
}

#[test]
fn setters_set_their_hook() {
    let log = new_log();
    let mut command = CommandBuilder::new()
        .init(init_of(&log))
        .periodic(periodic_of(&log))
        .end(end_of(&log))
        .is_finished(finished_of(&log))
        .build();
    assert!(drive(&mut command));
    assert_eq!(*log.borrow(), vec!["init", "periodic", "is_finished", "end(false)"]);
}

#[test]
fn later_setter_replaces_the_hook() {
    let log = new_log();
    let other = new_log();
    let mut command = CommandBuilder::new().init(init_of(&other)).init(init_of(&log)).build();
    command.init();
    assert_eq!(*log.borrow(), vec!["init"]);
    assert!(other.borrow().is_empty());
}

#[test]
fn periodic_is_handed_the_period() {
    let seen: Rc<RefCell<Vec<Duration>>> = Rc::new(RefCell::new(Vec::new()));
    let sink = seen.clone();
    let mut command = CommandBuilder::new().periodic(move |period| sink.borrow_mut().push(period)).build();
    command.init();
    command.periodic(Duration::from_millis(20));
    command.periodic(Duration::from_millis(7));
    assert_eq!(*seen.borrow(), vec![Duration::from_millis(20), Duration::from_millis(7)]);
}

#[test]
fn end_is_handed_the_flag() {
    let log = new_log();
    let mut command = CommandBuilder::new().end(end_of(&log)).build();
    command.end(true);
    command.end(false);
    assert_eq!(*log.borrow(), vec!["end(true)", "end(false)"]);
}

#[test]
fn requirements_are_kept_in_order() {
    let first = Handle(30);
    let second = Handle(10);
    let third = Handle(20);
    let command = CommandBuilder::new()
        .with_subsystem(&first)
        .with_subsystems(&[&second, &third])
        .with_suid(5)
        .with_suids(vec![6, 30])
        .build();
    assert_eq!(command.get_requirements(), vec![30, 10, 20, 5, 6, 30]);
}

#[test]
fn init_only() {
    let log = new_log();
    let handle = Handle(1);
    let mut command = CommandBuilder::init_only(init_of(&log), &[&handle]);
    assert!(!drive(&mut command));
    assert_eq!(*log.borrow(), vec!["init"]);
    assert_eq!(command.get_requirements(), vec![1]);
}

#[test]
fn periodic_only() {
    let log = new_log();
    let mut command = CommandBuilder::periodic_only(periodic_of(&log), &[]);
    assert!(!drive(&mut command));
    assert_eq!(*log.borrow(), vec!["periodic"]);
}

#[test]
fn end_only() {
    let log = new_log();
    let mut command = CommandBuilder::end_only(end_of(&log), &[]);
    assert!(!drive(&mut command));
    assert_eq!(*log.borrow(), vec!["end(false)"]);
}

#[test]
fn init_periodic() {
    let log = new_log();
    let mut command = CommandBuilder::init_periodic(init_of(&log), periodic_of(&log), &[]);
    assert!(!drive(&mut command));
    assert_eq!(*log.borrow(), vec!["init", "periodic"]);
}

#[test]
fn periodic_end() {
    let log = new_log();
    let mut command = CommandBuilder::periodic_end(periodic_of(&log), end_of(&log), &[]);
    assert!(!drive(&mut command));
    assert_eq!(*log.borrow(), vec!["periodic", "end(false)"]);
}

#[test]
fn init_end() {
    let log = new_log();
    let mut command = CommandBuilder::init_end(init_of(&log), end_of(&log), &[]);
    assert!(!drive(&mut command));
    assert_eq!(*log.borrow(), vec!["init", "end(false)"]);
}

#[test]
fn init_periodic_end() {
    let log = new_log();
    let mut command =
        CommandBuilder::init_periodic_end(init_of(&log), periodic_of(&log), end_of(&log), &[]);
    assert!(!drive(&mut command));
    assert_eq!(*log.borrow(), vec!["init", "periodic", "end(false)"]);
}

#[test]
fn run_until() {
    let log = new_log();
    let mut command = CommandBuilder::run_until(periodic_of(&log), finished_of(&log), &[]);
    assert!(drive(&mut command));
    assert_eq!(*log.borrow(), vec!["periodic", "is_finished"]);
}

#[test]
fn periodic_end_until() {
    let log = new_log();
    let mut command =
        CommandBuilder::periodic_end_until(finished_of(&log), periodic_of(&log), end_of(&log), &[]);
    assert!(drive(&mut command));
    assert_eq!(*log.borrow(), vec!["periodic", "is_finished", "end(false)"]);
}

#[test]
fn init_periodic_until() {
    let log = new_log();
    let mut command = CommandBuilder::init_periodic_until(init_of(&log), finished_of(&log), &[]);
    assert!(drive(&mut command));
    assert_eq!(*log.borrow(), vec!["init", "is_finished"]);
}

#[test]
fn full() {
    let log = new_log();
    let first = Handle(2);
    let second = Handle(1);
    let mut command = CommandBuilder::full(
        init_of(&log),
        periodic_of(&log),
        end_of(&log),
        finished_of(&log),
        &[&first, &second],
    );
    assert!(drive(&mut command));
    assert_eq!(*log.borrow(), vec!["init", "periodic", "is_finished", "end(false)"]);
    assert_eq!(command.get_requirements(), vec![2, 1]);
}

#[test]
fn empty_command_does_nothing_and_never_finishes() {
    let mut command = Command::empty();
    assert!(!drive(&mut command));
}
