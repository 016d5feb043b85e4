use std::cell::{Cell, RefCell};
use std::rc::Rc;
use std::time::Duration;

use frclib_commands::{
    Command, CommandBuilder, CommandIndex, CommandManager, CommandManagerError, CommandTrait,
    Condition, SchedulerContext, Subsystem, SubsystemSUID,
};

type Log = Rc<RefCell<Vec<String>>>;

fn new_log() -> Log {
    Rc::new(RefCell::new(Vec::new()))
}

fn note(log: &Log, text: &str) {
    log.borrow_mut().push(text.to_owned());
}

fn has(log: &Log, text: &str) -> bool {
    log.borrow().iter().any(|entry| entry == text)
}

/// Lets the clock advance by at least `time`.
fn wait(time: Duration) {
    let start = std::time::Instant::now();
    while start.elapsed() < time {
        std::hint::spin_loop();
    }
}

fn count(log: &Log, text: &str) -> usize {
    log.borrow().iter().filter(|entry| *entry == text).count()
}

/// A command that logs every hook under `name` and finishes after `cycles`
/// calls of `periodic` (never, if `cycles` is 0).
fn logged(log: &Log, name: &'static str, cycles: usize, requirements: Vec<SubsystemSUID>) -> Command {
    let seen = Rc::new(Cell::new(0usize));
    let (l1, l2, l3) = (log.clone(), log.clone(), log.clone());
    let (s1, s2) = (seen.clone(), seen.clone());
    CommandBuilder::new()
        .init(move || note(&l1, &format!("{}.init", name)))
        .periodic(move |_: Duration| {
            s1.set(s1.get() + 1);
            note(&l2, &format!("{}.periodic", name));
        })
        .end(move |interrupted: bool| note(&l3, &format!("{}.end({})", name, interrupted)))
        .is_finished(move || cycles != 0 && s2.get() >= cycles)
        .with_suids(requirements)
        .build()
}

#[allow(dead_code)]
struct TestCommand {
    log: Log,
    name: String,
    start: bool,
    end: bool,
}

impl CommandTrait for TestCommand {
    fn is_finished(&mut self) -> bool {
        note(&self.log, "custom_command_is_finished");
        true
    }
}

#[allow(dead_code)]
struct TestSubsystem {
    log: Log,
    integer: i32,
    string: String,
    boolean: bool,
}

impl Subsystem for TestSubsystem {
    fn name(&self) -> &'static str {
        "TestSubsystem"
    }

    fn construct() -> Self {
        Self { log: new_log(), integer: 0, string: String::new(), boolean: false }
    }

    fn periodic(&self, _: Duration) {
        note(&self.log, "subsystem_periodic");
    }

    fn log(&self) {
        note(&self.log, "subsystem_log");
    }
}

struct DummySubsystem;

impl Subsystem for DummySubsystem {
    fn name(&self) -> &'static str {
        "DummySubsystem"
    }

    fn construct() -> Self {
        Self
    }
}

/// Constructs a subsystem and registers it, as a handle on it would.
fn generate<T: Subsystem + 'static>(manager: &mut CommandManager, subsystem: T) -> Rc<RefCell<T>> {
    let subsystem = Rc::new(RefCell::new(subsystem));
    let hooked = subsystem.clone();
    let suid = subsystem.borrow().suid();
    let default_command = subsystem.borrow_mut().default_command();
    manager
        .register_subsystem(suid, move |period: Duration| hooked.borrow().periodic(period), default_command)
        .expect("Subsystem already registered");
    subsystem
}

#[test]
fn test_manager() {
    let log = new_log();
    let mut context = SchedulerContext::new();
    let mut manager = CommandManager::new(&mut context);
    let subsystem =
        generate(&mut manager, TestSubsystem { log: log.clone(), ..TestSubsystem::construct() });
    let dummy_subsystem = generate(&mut manager, DummySubsystem::construct());

    assert_eq!(subsystem.borrow().suid(), subsystem.borrow().suid());

    let command = Command::custom(Box::new(TestCommand {
        log: log.clone(),
        name: "Test".to_owned(),
        start: false,
        end: false,
    }));

    manager.schedule(command);

    let variable: Rc<RefCell<Vec<u8>>> = Rc::new(RefCell::new(Vec::new()));
    let variable2: Rc<RefCell<Option<u8>>> = Rc::new(RefCell::new(None));

    let (l1, l2, l3, l4) = (log.clone(), log.clone(), log.clone(), log.clone());
    let (v1, v2, v3) = (variable.clone(), variable.clone(), variable2.clone());
    CommandBuilder::new()
        .periodic(move |_period: Duration| {
            note(&l1, "cmd_periodic");
            v1.borrow_mut().push(0);
        })
        .init(move || {
            note(&l2, "cmd_init");
            v2.borrow_mut().push(0);
            v3.borrow_mut().replace(0);
        })
        .end(move |_| {
            note(&l3, "cmd_end");
        })
        .is_finished(move || {
            note(&l4, "cmd_is_finished");
            true
        })
        .with_suids(vec![subsystem.borrow().suid(), dummy_subsystem.borrow().suid()])
        .build()
        .schedule(&mut context);

    let inner_cond = Rc::new(Cell::new(false));
    let (cond_log, cond_value) = (log.clone(), inner_cond.clone());
    let cond = Condition::new(move || {
        note(&cond_log, "cond_eval");
        cond_value.get()
    });

    let init_log = log.clone();
    cond.on_true(
        &mut context,
        CommandBuilder::new()
            .init(move || {
                note(&init_log, "cond_sched_init");
            })
            .build(),
    );

    manager.run(&mut context);

    inner_cond.set(true);

    manager.run(&mut context);

    assert!(has(&log, "custom_command_is_finished"), "Marker {} not found", "custom_command_is_finished");
    assert!(has(&log, "subsystem_periodic"), "Marker {} not found", "subsystem_periodic");
    assert!(has(&log, "cmd_init"), "Marker {} not found", "cmd_init");
    assert!(has(&log, "cmd_periodic"), "Marker {} not found", "cmd_periodic");
    assert!(has(&log, "cmd_end"), "Marker {} not found", "cmd_end");
    assert!(has(&log, "cmd_is_finished"), "Marker {} not found", "cmd_is_finished");
    assert!(has(&log, "cond_eval"), "Marker {} not found", "cond_eval");
    assert!(has(&log, "cond_sched_init"), "Marker {} not found", "cond_sched_init");
    assert_eq!(*variable.borrow(), vec![0, 0]);
    assert_eq!(*variable2.borrow(), Some(0));
}

#[test]
fn simple_command_runs_to_its_end() {
    let log = new_log();
    let mut context = SchedulerContext::new();
    let mut manager = CommandManager::new(&mut context);
    logged(&log, "x", 1, vec![]).schedule(&mut context);
    manager.run(&mut context);
    manager.run(&mut context);
    assert_eq!(*log.borrow(), vec!["x.init", "x.periodic", "x.end(false)"]);
}

#[test]
fn default_fallback() {
    let log = new_log();
    let mut context = SchedulerContext::new();
    let mut manager = CommandManager::new(&mut context);
    manager.register_subsystem(1, |_: Duration| {}, Some(logged(&log, "d", 0, vec![1]))).unwrap();
    for _ in 0..5 {
        manager.run(&mut context);
    }
    assert_eq!(count(&log, "d.periodic"), 5);
    assert_eq!(count(&log, "d.init"), 1);
    assert_eq!(count(&log, "d.end(true)"), 0);
    assert_eq!(count(&log, "d.end(false)"), 0);
}

#[test]
fn displacement() {
    let log = new_log();
    let mut context = SchedulerContext::new();
    let mut manager = CommandManager::new(&mut context);
    manager.register_subsystem(1, |_: Duration| {}, Some(logged(&log, "d", 0, vec![1]))).unwrap();
    logged(&log, "x", 2, vec![1]).schedule(&mut context);

    manager.run(&mut context);
    assert_eq!(*log.borrow(), vec!["x.init", "x.periodic"]);
    manager.run(&mut context);
    assert_eq!(*log.borrow(), vec!["x.init", "x.periodic", "x.periodic", "x.end(false)"]);
    manager.run(&mut context);
    assert_eq!(count(&log, "d.periodic"), 1);
    manager.run(&mut context);
    assert_eq!(count(&log, "d.periodic"), 2);
    assert_eq!(
        *log.borrow(),
        vec![
            "x.init",
            "x.periodic",
            "x.periodic",
            "x.end(false)",
            "d.init",
            "d.periodic",
            "d.periodic"
        ]
    );
}

#[test]
fn running_default_is_displaced_without_end() {
    let log = new_log();
    let mut context = SchedulerContext::new();
    let mut manager = CommandManager::new(&mut context);
    manager.register_subsystem(1, |_: Duration| {}, Some(logged(&log, "d", 0, vec![1]))).unwrap();
    manager.run(&mut context);
    logged(&log, "x", 1, vec![1]).schedule(&mut context);
    manager.run(&mut context);
    manager.run(&mut context);
    assert_eq!(
        *log.borrow(),
        vec!["d.init", "d.periodic", "x.init", "x.periodic", "x.end(false)", "d.periodic"]
    );
}

struct Stubborn {
    log: Log,
    requirements: Vec<SubsystemSUID>,
}

impl CommandTrait for Stubborn {
    fn init(&mut self) {
        note(&self.log, "a.init");
    }

    fn periodic(&mut self, _: Duration) {
        note(&self.log, "a.periodic");
    }

    fn end(&mut self, interrupted: bool) {
        note(&self.log, &format!("a.end({})", interrupted));
    }

    fn get_requirements(&self) -> Vec<SubsystemSUID> {
        self.requirements.clone()
    }

    fn cancel_incoming(&self) -> bool {
        true
    }

    fn get_name(&self) -> String {
        "stubborn".to_owned()
    }
}

#[test]
fn cancel_incoming_refusal() {
    let log = new_log();
    let mut context = SchedulerContext::new();
    let mut manager = CommandManager::new(&mut context);
    manager.register_subsystem(1, |_: Duration| {}, None).unwrap();
    Command::custom(Box::new(Stubborn { log: log.clone(), requirements: vec![1] }))
        .schedule(&mut context);
    manager.run(&mut context);
    logged(&log, "b", 0, vec![1]).schedule(&mut context);
    manager.run(&mut context);
    manager.run(&mut context);
    assert_eq!(count(&log, "b.init"), 0);
    assert_eq!(count(&log, "b.periodic"), 0);
    assert_eq!(count(&log, "b.end(true)"), 1);
    assert_eq!(count(&log, "a.end(true)"), 0);
    assert_eq!(count(&log, "a.end(false)"), 0);
    assert_eq!(count(&log, "a.periodic"), 3);
    assert_eq!(count(&log, "a.init"), 1);
}

#[test]
fn incumbent_is_interrupted_in_the_same_tick() {
    let log = new_log();
    let mut context = SchedulerContext::new();
    let mut manager = CommandManager::new(&mut context);
    logged(&log, "a", 0, vec![1]).schedule(&mut context);
    manager.run(&mut context);
    logged(&log, "b", 0, vec![1]).schedule(&mut context);
    manager.run(&mut context);
    assert_eq!(count(&log, "a.end(true)"), 1);
    assert_eq!(count(&log, "b.init"), 1);
    manager.run(&mut context);
    assert_eq!(count(&log, "a.end(true)"), 1);
    assert_eq!(count(&log, "a.periodic"), 1);
    assert_eq!(count(&log, "b.periodic"), 2);
}

#[test]
fn partly_displaced_command_gives_up_everything() {
    let log = new_log();
    let mut context = SchedulerContext::new();
    let mut manager = CommandManager::new(&mut context);
    logged(&log, "a", 0, vec![1, 2]).schedule(&mut context);
    manager.run(&mut context);
    logged(&log, "b", 0, vec![2]).schedule(&mut context);
    manager.run(&mut context);
    assert_eq!(count(&log, "a.end(true)"), 1);
    // Subsystem 1 is free again: a newcomer takes it without interrupting anyone.
    logged(&log, "c", 0, vec![1]).schedule(&mut context);
    manager.run(&mut context);
    assert_eq!(count(&log, "c.init"), 1);
    assert_eq!(count(&log, "b.end(true)"), 0);
    assert_eq!(count(&log, "a.end(true)"), 1);
}

#[test]
fn sequential_chain() {
    let log = new_log();
    let mut context = SchedulerContext::new();
    let mut manager = CommandManager::new(&mut context);
    let chain = logged(&log, "a", 1, vec![])
        .before(logged(&log, "b", 1, vec![]))
        .before(logged(&log, "c", 1, vec![]));
    chain.schedule(&mut context);
    manager.run(&mut context);
    assert_eq!(*log.borrow(), vec!["a.init", "a.periodic", "a.end(false)", "b.init"]);
    manager.run(&mut context);
    assert_eq!(
        log.borrow()[4..].to_vec(),
        vec!["b.periodic".to_owned(), "b.end(false)".to_owned(), "c.init".to_owned()]
    );
    manager.run(&mut context);
    assert_eq!(log.borrow()[7..].to_vec(), vec!["c.periodic".to_owned(), "c.end(false)".to_owned()]);
    let length = log.borrow().len();
    manager.run(&mut context);
    assert_eq!(log.borrow().len(), length);
}

#[test]
fn race_with_timeout() {
    let log = new_log();
    let mut context = SchedulerContext::new();
    let mut manager = CommandManager::new(&mut context);
    logged(&log, "long", 0, vec![]).race_with(Command::wait_for(Duration::from_millis(100)))
        .schedule(&mut context);
    manager.run(&mut context);
    assert_eq!(count(&log, "long.end(true)"), 0);
    wait(Duration::from_millis(150));
    manager.run(&mut context);
    assert_eq!(count(&log, "long.end(true)"), 1);
    assert_eq!(count(&log, "long.end(false)"), 0);
    let cycles = count(&log, "long.periodic");
    manager.run(&mut context);
    assert_eq!(count(&log, "long.end(true)"), 1);
    assert_eq!(count(&log, "long.periodic"), cycles);
}

#[test]
fn rising_edge_condition() {
    let log = new_log();
    let mut context = SchedulerContext::new();
    let mut manager = CommandManager::new(&mut context);
    let value = Rc::new(Cell::new(false));
    let seen = value.clone();
    let cond = Condition::new(move || seen.get());
    cond.on_true(&mut context, logged(&log, "x", 1, vec![]));

    manager.run(&mut context);
    assert_eq!(count(&log, "x.init"), 0);
    value.set(true);
    manager.run(&mut context);
    assert_eq!(count(&log, "x.init"), 1);
    manager.run(&mut context);
    assert_eq!(count(&log, "x.init"), 1);
    value.set(false);
    manager.run(&mut context);
    assert_eq!(count(&log, "x.init"), 1);
    value.set(true);
    manager.run(&mut context);
    assert_eq!(count(&log, "x.init"), 2);
}

#[test]
fn falling_edge_condition() {
    let log = new_log();
    let mut context = SchedulerContext::new();
    let mut manager = CommandManager::new(&mut context);
    let value = Rc::new(Cell::new(true));
    let seen = value.clone();
    let cond = Condition::new(move || seen.get());
    cond.on_false(&mut context, logged(&log, "x", 1, vec![]));

    manager.run(&mut context);
    assert_eq!(count(&log, "x.init"), 0);
    manager.run(&mut context);
    assert_eq!(count(&log, "x.init"), 0);
    value.set(false);
    manager.run(&mut context);
    assert_eq!(count(&log, "x.init"), 1);
    manager.run(&mut context);
    assert_eq!(count(&log, "x.init"), 1);
}

#[test]
fn running_command_is_not_initialised_twice() {
    let log = new_log();
    let mut context = SchedulerContext::new();
    let mut manager = CommandManager::new(&mut context);
    let value = Rc::new(Cell::new(false));
    let seen = value.clone();
    let cond = Condition::new(move || seen.get());
    cond.on_true(&mut context, logged(&log, "x", 0, vec![7]));
    manager.run(&mut context);
    value.set(true);
    manager.run(&mut context);
    value.set(false);
    manager.run(&mut context);
    value.set(true);
    manager.run(&mut context);
    assert_eq!(count(&log, "x.init"), 1);
    assert_eq!(count(&log, "x.end(true)"), 0);
    assert_eq!(count(&log, "x.periodic"), 3);
}

#[test]
fn duplicate_subsystem_is_rejected() {
    let mut context = SchedulerContext::new();
    let mut manager = CommandManager::new(&mut context);
    assert_eq!(manager.register_subsystem(5, |_: Duration| {}, None), Ok(()));
    assert_eq!(
        manager.register_subsystem(5, |_: Duration| {}, None),
        Err(CommandManagerError::SubsystemAlreadyRegistered)
    );
    assert_eq!(manager.register_subsystem(6, |_: Duration| {}, None), Ok(()));
}

#[test]
fn subsystem_hooks_run_in_order_of_registration() {
    let log = new_log();
    let mut context = SchedulerContext::new();
    let mut manager = CommandManager::new(&mut context);
    let (l1, l2) = (log.clone(), log.clone());
    manager.register_subsystem(2, move |_: Duration| note(&l1, "second-registered-first"), None).unwrap();
    manager.register_subsystem(1, move |_: Duration| note(&l2, "first-registered-second"), None).unwrap();
    manager.run(&mut context);
    assert_eq!(*log.borrow(), vec!["second-registered-first", "first-registered-second"]);
}

#[test]
fn first_cycle_is_handed_no_elapsed_time() {
    let periods: Rc<RefCell<Vec<Duration>>> = Rc::new(RefCell::new(Vec::new()));
    let seen = periods.clone();
    let mut context = SchedulerContext::new();
    let mut manager = CommandManager::new(&mut context);
    CommandBuilder::new()
        .periodic(move |period: Duration| seen.borrow_mut().push(period))
        .build()
        .schedule(&mut context);
    manager.run(&mut context);
    wait(Duration::from_millis(20));
    manager.run(&mut context);
    assert_eq!(periods.borrow()[0], Duration::from_secs(0));
    assert!(periods.borrow()[1] >= Duration::from_millis(20));
}

#[test]
fn first_subsystem_period_is_zero() {
    let periods: Rc<RefCell<Vec<Duration>>> = Rc::new(RefCell::new(Vec::new()));
    let seen = periods.clone();
    let mut context = SchedulerContext::new();
    let mut manager = CommandManager::new(&mut context);
    manager.register_subsystem(1, move |period: Duration| seen.borrow_mut().push(period), None).unwrap();
    manager.run(&mut context);
    wait(Duration::from_millis(20));
    manager.run(&mut context);
    assert_eq!(periods.borrow()[0], Duration::from_secs(0));
    assert!(periods.borrow()[1] >= Duration::from_millis(20));
}

#[test]
fn schedule_without_manager_fails() {
    let mut context = SchedulerContext::new();
    let error = Command::empty().try_schedule(&mut context).unwrap_err();
    assert_eq!(
        error.message(),
        "Can only schedule commands on a thread that has a command manager"
    );
    let manager = CommandManager::new(&mut context);
    assert!(Command::empty().try_schedule(&mut context).is_ok());
    manager.release(&mut context);
    assert!(frclib_commands::schedule(&mut context, Command::empty()).is_err());
}

#[test]
fn direct_schedule_admits_at_once() {
    let log = new_log();
    let mut context = SchedulerContext::new();
    let mut manager = CommandManager::new(&mut context);
    manager.schedule(logged(&log, "a", 0, vec![1]));
    manager.schedule(logged(&log, "b", 0, vec![1]));
    manager.run(&mut context);
    // `a` was displaced before it ever ran: it is ended as interrupted, never initialised.
    assert_eq!(count(&log, "a.init"), 0);
    assert_eq!(count(&log, "a.end(true)"), 1);
    assert_eq!(count(&log, "b.init"), 1);
}

#[test]
fn freed_slot_is_reused() {
    let log = new_log();
    let mut context = SchedulerContext::new();
    let mut manager = CommandManager::new(&mut context);
    manager.schedule(logged(&log, "a", 1, vec![]));
    manager.schedule(logged(&log, "b", 0, vec![]));
    manager.run(&mut context);
    manager.schedule(logged(&log, "c", 0, vec![]));
    manager.run(&mut context);
    assert_eq!(count(&log, "a.end(false)"), 1);
    assert_eq!(count(&log, "b.periodic"), 2);
    assert_eq!(count(&log, "c.periodic"), 1);
    // `c` took the place that `a` left: the arena has not grown.
    assert!(manager.holds_command(CommandIndex::Command(0)));
    assert!(manager.holds_command(CommandIndex::Command(1)));
    assert!(manager.has_slot(CommandIndex::Command(1)));
    assert!(!manager.has_slot(CommandIndex::Command(2)));
}

#[test]
fn cleared_conditions_no_longer_fire() {
    let log = new_log();
    let mut context = SchedulerContext::new();
    let mut manager = CommandManager::new(&mut context);
    let value = Rc::new(Cell::new(false));
    let seen = value.clone();
    Condition::new(move || seen.get()).on_true(&mut context, logged(&log, "x", 1, vec![]));
    manager.run(&mut context);
    manager.clear_conditional_schedulers();
    value.set(true);
    manager.run(&mut context);
    assert_eq!(count(&log, "x.init"), 0);
}

#[test]
fn admission_bookkeeping() {
    let log = new_log();
    let mut context = SchedulerContext::new();
    let mut manager = CommandManager::new(&mut context);
    let a = CommandIndex::Command(0);
    let b = CommandIndex::Command(1);

    manager.schedule(logged(&log, "a", 0, vec![1, 2]));
    assert_eq!(manager.owner(1), Some(a));
    assert_eq!(manager.owner(2), Some(a));
    assert_eq!(manager.owner(3), None);
    assert_eq!(manager.interrupt_flag(a), Some(false));
    assert!(!manager.is_initialized(a));
    assert!(!manager.is_orphaned(a));
    assert!(manager.holds_command(a));

    manager.run(&mut context);
    assert!(manager.is_initialized(a));

    manager.schedule(logged(&log, "b", 0, vec![2, 3]));
    assert_eq!(manager.owner(1), Some(a));
    assert_eq!(manager.owner(2), Some(b));
    assert_eq!(manager.owner(3), Some(b));
    assert_eq!(manager.interrupt_flag(a), Some(true));
    assert_eq!(manager.interrupt_flag(b), Some(false));
    assert!(manager.is_initialized(a));

    manager.run(&mut context);
    assert_eq!(manager.owner(1), None);
    assert_eq!(manager.owner(2), Some(b));
    assert_eq!(manager.interrupt_flag(a), None);
    assert!(!manager.is_initialized(a));
    assert!(!manager.holds_command(a));
    assert!(manager.is_initialized(b));
    assert_eq!(manager.interrupt_flag(b), Some(false));
}

#[test]
fn orphan_bookkeeping() {
    let log = new_log();
    let mut context = SchedulerContext::new();
    let mut manager = CommandManager::new(&mut context);
    let x = CommandIndex::Command(0);
    manager.schedule(logged(&log, "x", 2, vec![]));
    assert!(manager.is_orphaned(x));
    assert_eq!(manager.interrupt_flag(x), Some(false));
    manager.run(&mut context);
    assert!(manager.is_orphaned(x));
    assert!(manager.is_initialized(x));
    manager.run(&mut context);
    assert!(!manager.is_orphaned(x));
    assert!(!manager.is_initialized(x));
    assert_eq!(manager.interrupt_flag(x), None);
    assert!(!manager.holds_command(x));
}

#[test]
fn default_becomes_owner_in_the_second_phase() {
    let log = new_log();
    let mut context = SchedulerContext::new();
    let mut manager = CommandManager::new(&mut context);
    let d = CommandIndex::DefaultCommand(0);
    manager.register_subsystem(1, |_: Duration| {}, Some(logged(&log, "d", 0, vec![1]))).unwrap();
    manager.register_subsystem(2, |_: Duration| {}, None).unwrap();
    assert_eq!(manager.owner(1), None);
    assert_eq!(manager.interrupt_flag(d), Some(false));
    manager.run(&mut context);
    assert_eq!(manager.owner(1), Some(d));
    assert_eq!(manager.owner(2), Some(CommandIndex::DefaultCommand(1)));
    assert!(manager.is_initialized(d));
    assert!(!manager.is_initialized(CommandIndex::DefaultCommand(1)));
    assert!(!manager.holds_command(CommandIndex::DefaultCommand(1)));

    manager.schedule(logged(&log, "x", 1, vec![1]));
    let x = CommandIndex::Command(0);
    assert_eq!(manager.owner(1), Some(x));
    // A default is displaced without a mark.
    assert_eq!(manager.interrupt_flag(d), Some(false));
    assert!(manager.is_initialized(d));
    manager.run(&mut context);
    assert_eq!(manager.owner(1), None);
    manager.run(&mut context);
    assert_eq!(manager.owner(1), Some(d));
    assert_eq!(count(&log, "d.init"), 1);
}

#[test]
fn refused_command_leaves_no_trace() {
    let log = new_log();
    let mut context = SchedulerContext::new();
    let mut manager = CommandManager::new(&mut context);
    manager.schedule(Command::custom(Box::new(Stubborn { log: log.clone(), requirements: vec![1] })));
    let a = CommandIndex::Command(0);
    let b = CommandIndex::Command(1);
    manager.schedule(logged(&log, "b", 0, vec![1, 2]));
    assert_eq!(count(&log, "b.end(true)"), 1);
    assert_eq!(manager.owner(1), Some(a));
    assert_eq!(manager.owner(2), None);
    assert!(!manager.holds_command(b));
    assert_eq!(manager.interrupt_flag(b), None);
    assert_eq!(manager.interrupt_flag(a), Some(false));
    // The place is free again: the next command gets the same handle.
    manager.schedule(logged(&log, "c", 0, vec![2]));
    assert_eq!(manager.owner(2), Some(b));
}

#[test]
fn preserved_command_keeps_its_place() {
    let log = new_log();
    let mut context = SchedulerContext::new();
    let mut manager = CommandManager::new(&mut context);
    let value = Rc::new(Cell::new(false));
    let seen = value.clone();
    Condition::new(move || seen.get()).on_true(&mut context, logged(&log, "x", 1, vec![4]));
    let x = CommandIndex::PreservedCommand(0);
    manager.run(&mut context);
    assert!(manager.holds_command(x));
    assert_eq!(manager.owner(4), None);
    value.set(true);
    manager.run(&mut context);
    // Admitted, run and finished within the tick: no longer tracked, but kept.
    assert_eq!(count(&log, "x.end(false)"), 1);
    assert!(manager.holds_command(x));
    assert!(!manager.is_initialized(x));
    assert_eq!(manager.interrupt_flag(x), None);
    assert_eq!(manager.owner(4), None);
}

#[test]
fn overlapping_requirements_never_run_together() {
    let log = new_log();
    let mut context = SchedulerContext::new();
    let mut manager = CommandManager::new(&mut context);
    logged(&log, "a", 0, vec![1, 2]).schedule(&mut context);
    logged(&log, "b", 0, vec![2, 3]).schedule(&mut context);
    logged(&log, "c", 0, vec![3, 4]).schedule(&mut context);
    manager.run(&mut context);
    manager.run(&mut context);
    // `b` displaced `a`, and `c` displaced `b`: only `c` ever ran.
    assert_eq!(count(&log, "a.periodic"), 0);
    assert_eq!(count(&log, "b.periodic"), 0);
    assert_eq!(count(&log, "c.periodic"), 2);
    assert_eq!(count(&log, "a.end(true)"), 1);
    assert_eq!(count(&log, "b.end(true)"), 1);
    assert_eq!(manager.owner(1), None);
    assert_eq!(manager.owner(2), None);
    assert_eq!(manager.owner(3), Some(CommandIndex::Command(2)));
    assert_eq!(manager.owner(4), Some(CommandIndex::Command(2)));
}

/// A small deterministic generator of numbers.
struct Numbers(u64);

impl Numbers {
    fn next(&mut self, bound: u64) -> u64 {
        self.0 = self.0.wrapping_mul(6364136223846793005).wrapping_add(1442695040888963407);
        (self.0 >> 33) % bound
    }
}

#[test]
fn commands_that_run_in_one_tick_share_no_subsystem() {
    let ran: Rc<RefCell<Vec<usize>>> = Rc::new(RefCell::new(Vec::new()));
    let started: Rc<RefCell<Vec<usize>>> = Rc::new(RefCell::new(Vec::new()));
    let ended: Rc<RefCell<Vec<usize>>> = Rc::new(RefCell::new(Vec::new()));
    let mut needs: Vec<Vec<SubsystemSUID>> = Vec::new();
    let mut numbers = Numbers(7);
    let mut context = SchedulerContext::new();
    let mut manager = CommandManager::new(&mut context);
    for suid in 1..=3 {
        manager.register_subsystem(suid, |_: Duration| {}, None).unwrap();
    }

    for tick in 0..200 {
        for _ in 0..numbers.next(3) {
            let id = needs.len();
            let mut wanted: Vec<SubsystemSUID> = Vec::new();
            for suid in 1..=5 {
                if numbers.next(3) == 0 {
                    wanted.push(suid);
                }
            }
            needs.push(wanted.clone());
            let cycles = numbers.next(4) as usize;
            let seen = Rc::new(Cell::new(0usize));
            let (r, s, e) = (ran.clone(), started.clone(), ended.clone());
            let (s1, s2) = (seen.clone(), seen.clone());
            let command = CommandBuilder::new()
                .init(move || s.borrow_mut().push(id))
                .periodic(move |_: Duration| {
                    s1.set(s1.get() + 1);
                    r.borrow_mut().push(id);
                })
                .end(move |_| e.borrow_mut().push(id))
                .is_finished(move || cycles != 0 && s2.get() >= cycles)
                .with_suids(wanted)
                .build();
            if tick % 2 == 0 {
                command.schedule(&mut context);
            } else {
                manager.schedule(command);
            }
        }
        ran.borrow_mut().clear();
        manager.run(&mut context);

        let ran_now = ran.borrow().clone();
        for (position, first) in ran_now.iter().enumerate() {
            // Every command runs at most once per tick.
            assert!(!ran_now[position + 1..].contains(first));
            for second in &ran_now[position + 1..] {
                for suid in &needs[*first] {
                    assert!(
                        !needs[*second].contains(suid),
                        "commands {} and {} both ran with subsystem {}",
                        first,
                        second,
                        suid
                    );
                }
            }
        }
        // Whoever ran has been initialised, and nobody ran after its end.
        for id in &ran_now {
            assert!(started.borrow().contains(id));
        }
    }

    // No command was initialised twice or ended twice.
    for id in 0..needs.len() {
        assert!(started.borrow().iter().filter(|seen| **seen == id).count() <= 1);
        assert!(ended.borrow().iter().filter(|seen| **seen == id).count() <= 1);
    }
    assert!(needs.len() > 100);
    assert!(started.borrow().len() > 20);
    assert!(ended.borrow().len() > 20);
}

#[test]
fn stubborn_command_that_is_triggered_again_keeps_running() {
    let log = new_log();
    let mut context = SchedulerContext::new();
    let mut manager = CommandManager::new(&mut context);
    manager.register_subsystem(1, |_: Duration| {}, None).unwrap();
    let value = Rc::new(Cell::new(false));
    let seen = value.clone();
    let cond = Condition::new(move || seen.get());
    cond.on_true(
        &mut context,
        Command::custom(Box::new(Stubborn { log: log.clone(), requirements: vec![1] })),
    );
    manager.run(&mut context);
    value.set(true);
    manager.run(&mut context);
    assert_eq!(count(&log, "a.init"), 1);
    assert_eq!(count(&log, "a.periodic"), 1);
    value.set(false);
    manager.run(&mut context);
    value.set(true);
    manager.run(&mut context);
    assert_eq!(count(&log, "a.init"), 1);
    assert_eq!(count(&log, "a.periodic"), 3);
    assert_eq!(count(&log, "a.end(true)"), 0);
    assert_eq!(count(&log, "a.end(false)"), 0);
    manager.run(&mut context);
    assert_eq!(count(&log, "a.periodic"), 4);
}
