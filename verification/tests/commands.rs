use std::cell::{Cell, RefCell};
use std::rc::Rc;
use std::time::Duration;

use frclib_commands::{
    Command, CommandBuilder, CommandTrait, ConstCommand, ConstHooks, CustomCommand, ProxyCommand,
    SubsystemRequirement, SubsystemSUID,
};

type Log = Rc<RefCell<Vec<String>>>;

fn new_log() -> Log {
    Rc::new(RefCell::new(Vec::new()))
}

fn note(log: &Log, text: &str) {
    log.borrow_mut().push(text.to_owned());
}

fn count(log: &Log, text: &str) -> usize {
    log.borrow().iter().filter(|entry| *entry == text).count()
}

fn wait(time: Duration) {
    let start = std::time::Instant::now();
    while start.elapsed() < time {
        std::hint::spin_loop();
    }
}

fn sorted(mut list: Vec<SubsystemSUID>) -> Vec<SubsystemSUID> {
    list.sort();
    list
}

fn logged(log: &Log, name: &'static str, cycles: usize, requirements: Vec<SubsystemSUID>) -> Command {
    let seen = Rc::new(Cell::new(0usize));
    let (l1, l2, l3) = (log.clone(), log.clone(), log.clone());
    let (s1, s2) = (seen.clone(), seen.clone());
    CommandBuilder::new()
        .init(move || note(&l1, &format!("{}.init", name)))
        .periodic(move |_: Duration| {
            s1.set(s1.get() + 1);
            note(&l2, &format!("{}.periodic", name));
        })
        .end(move |interrupted: bool| note(&l3, &format!("{}.end({})", name, interrupted)))
        .is_finished(move || cycles != 0 && s2.get() >= cycles)
        .with_suids(requirements)
        .build()
}

fn requiring(requirements: Vec<SubsystemSUID>) -> Command {
    CommandBuilder::new().with_suids(requirements).build()
}

struct Handle(SubsystemSUID);

impl SubsystemRequirement for Handle {
    fn suid(&self) -> SubsystemSUID {
        self.0
    }
}

#[test]
fn composite_requires_what_its_children_require() {
    let parallel = Command::parallel(vec![requiring(vec![1, 2]), requiring(vec![2, 3]), requiring(vec![])]);
    assert_eq!(sorted(parallel.get_requirements()), vec![1, 2, 3]);
    let race = Command::race(vec![requiring(vec![9]), requiring(vec![9, 4])]);
    assert_eq!(sorted(race.get_requirements()), vec![4, 9]);
    let sequence = Command::sequential(vec![requiring(vec![5]), requiring(vec![6, 5])]);
    assert_eq!(sorted(sequence.get_requirements()), vec![5, 6]);
    let nested = requiring(vec![1]).along_with(requiring(vec![2]).before(requiring(vec![3])));
    assert_eq!(sorted(nested.get_requirements()), vec![1, 2, 3]);
    assert!(Command::parallel(vec![]).get_requirements().is_empty());
}

#[test]
fn pair_combinators_require_the_union() {
    assert_eq!(sorted(requiring(vec![1]).along_with(requiring(vec![2])).get_requirements()), vec![1, 2]);
    assert_eq!(sorted(requiring(vec![1]).race_with(requiring(vec![1])).get_requirements()), vec![1]);
    assert_eq!(sorted(requiring(vec![3]).before(requiring(vec![2])).get_requirements()), vec![2, 3]);
    assert_eq!(sorted(requiring(vec![3]).after(requiring(vec![2])).get_requirements()), vec![2, 3]);
    assert_eq!(
        sorted(requiring(vec![1]).along_with_many(vec![requiring(vec![2]), requiring(vec![3])]).get_requirements()),
        vec![1, 2, 3]
    );
    assert_eq!(
        sorted(requiring(vec![1]).race_with_many(vec![requiring(vec![2])]).get_requirements()),
        vec![1, 2]
    );
    assert_eq!(
        sorted(requiring(vec![1]).and_then_many(vec![requiring(vec![4])]).get_requirements()),
        vec![1, 4]
    );
    assert_eq!(sorted(requiring(vec![8]).timeout(Duration::from_secs(1)).get_requirements()), vec![8]);
}

#[test]
fn sequence_holds_all_requirements_whatever_the_cursor() {
    let log = new_log();
    let mut sequence = logged(&log, "a", 1, vec![1]).before(logged(&log, "b", 1, vec![2]));
    assert_eq!(sorted(sequence.get_requirements()), vec![1, 2]);
    sequence.init();
    sequence.periodic(Duration::from_secs(0));
    assert_eq!(sorted(sequence.get_requirements()), vec![1, 2]);
    sequence.periodic(Duration::from_secs(0));
    assert!(sequence.is_finished());
    assert_eq!(sorted(sequence.get_requirements()), vec![1, 2]);
}

#[test]
fn extra_requirements_widen_the_set() {
    let widened = requiring(vec![1, 2]).with_extra_suids(vec![2, 3]);
    assert_eq!(widened.get_requirements(), vec![1, 2, 2, 3]);
    let mut set = widened.get_requirements();
    set.sort();
    set.dedup();
    assert_eq!(set, vec![1, 2, 3]);
    let first = Handle(7);
    let second = Handle(8);
    let by_handle = requiring(vec![1]).with_extra_requirements(&[&first, &second]);
    assert_eq!(by_handle.get_requirements(), vec![1, 7, 8]);
}

#[test]
fn leaf_requirements() {
    assert!(Command::wait_for(Duration::from_secs(1)).get_requirements().is_empty());
    assert!(Command::empty().get_requirements().is_empty());
    assert_eq!(requiring(vec![4, 4, 2]).get_requirements(), vec![4, 4, 2]);
    let proxy = Command::Proxy(ProxyCommand::new(|| requiring(vec![1]), vec![9, 8]));
    assert_eq!(sorted(proxy.get_requirements()), vec![8, 9]);
}

#[test]
fn names() {
    assert_eq!(Command::empty().get_name(), "unnamed");
    assert_eq!(Command::empty().with_name("arm up").get_name(), "arm up");
    assert_eq!(Command::empty().with_name("n").with_extra_suids(vec![1]).get_name(), "n");
    let a = || Command::empty().with_name("a");
    let b = || Command::empty().with_name("b");
    let c = || Command::empty().with_name("c");
    assert_eq!(a().before(b()).get_name(), "a->b");
    assert_eq!(Command::sequential(vec![a(), b(), c()]).get_name(), "a->b->c");
    assert_eq!(Command::sequential(vec![a()]).get_name(), "a");
    assert_eq!(Command::sequential(vec![]).get_name(), "");
    assert_eq!(a().along_with(b()).get_name(), "a,b");
    assert_eq!(Command::race(vec![a(), b(), c()]).get_name(), "a,b,c");
    assert_eq!(a().after(b()).get_name(), "b->a");
    assert_eq!(a().along_with(b().before(c())).get_name(), "a,b->c");
    assert_eq!(Command::wait_for(Duration::from_millis(100)).get_name(), "TimedCommand(100ms)");
    assert_eq!(Command::wait_for(Duration::from_secs(2)).get_name(), "TimedCommand(2s)");
}

#[test]
fn proxy_makes_a_fresh_command_on_every_init() {
    let log = new_log();
    let made = Rc::new(Cell::new(0usize));
    let (supplier_log, supplier_made) = (log.clone(), made.clone());
    let mut proxy = Command::Proxy(ProxyCommand::new(
        move || {
            supplier_made.set(supplier_made.get() + 1);
            logged(&supplier_log, "p", 1, vec![5]).with_name("inner")
        },
        vec![1],
    ));
    assert_eq!(proxy.get_name(), "ProxyCommand(?)");
    assert_eq!(made.get(), 0);
    proxy.end(true);
    assert_eq!(made.get(), 0);
    assert!(log.borrow().is_empty());

    proxy.init();
    assert_eq!(made.get(), 1);
    assert_eq!(proxy.get_name(), "ProxyCommand(inner)");
    assert_eq!(proxy.get_requirements(), vec![1]);
    proxy.periodic(Duration::from_secs(0));
    assert!(proxy.is_finished());
    proxy.end(false);
    assert_eq!(*log.borrow(), vec!["p.init", "p.periodic", "p.end(false)"]);

    proxy.init();
    assert_eq!(made.get(), 2);
    assert_eq!(count(&log, "p.init"), 2);
    proxy.periodic(Duration::from_secs(0));
    assert!(proxy.is_finished());
}

#[test]
fn parallel_runs_all_children_and_finishes_with_the_last() {
    let log = new_log();
    let mut parallel = logged(&log, "a", 1, vec![]).along_with(logged(&log, "b", 2, vec![]));
    parallel.init();
    assert_eq!(*log.borrow(), vec!["a.init", "b.init"]);
    parallel.periodic(Duration::from_secs(0));
    assert_eq!(log.borrow()[2..].to_vec(), vec!["a.periodic", "a.end(false)", "b.periodic"]);
    assert!(!parallel.is_finished());
    parallel.periodic(Duration::from_secs(0));
    assert_eq!(log.borrow()[5..].to_vec(), vec!["b.periodic", "b.end(false)"]);
    assert!(parallel.is_finished());
    parallel.end(false);
    assert_eq!(log.borrow().len(), 7);
}

#[test]
fn race_finishes_with_the_first_and_ends_the_losers() {
    let log = new_log();
    let mut race = logged(&log, "a", 1, vec![]).race_with(logged(&log, "b", 0, vec![]));
    race.init();
    race.periodic(Duration::from_secs(0));
    assert!(race.is_finished());
    assert_eq!(count(&log, "b.end(true)"), 0);
    race.end(false);
    assert_eq!(count(&log, "a.end(false)"), 1);
    assert_eq!(count(&log, "a.end(true)"), 0);
    assert_eq!(count(&log, "b.end(true)"), 1);
    race.end(true);
    assert_eq!(count(&log, "b.end(true)"), 1);
}

#[test]
fn empty_composites() {
    let mut all = Command::parallel(vec![]);
    all.init();
    all.periodic(Duration::from_secs(0));
    assert!(all.is_finished());
    let mut any = Command::race(vec![]);
    any.init();
    any.periodic(Duration::from_secs(0));
    assert!(!any.is_finished());
    let mut none = Command::sequential(vec![]);
    none.init();
    none.periodic(Duration::from_secs(0));
    assert!(none.is_finished());
    none.end(true);
}

#[test]
fn interrupted_parallel_ends_only_unfinished_children() {
    let log = new_log();
    let mut parallel = Command::parallel(vec![
        logged(&log, "a", 1, vec![]),
        logged(&log, "b", 0, vec![]),
        logged(&log, "c", 0, vec![]),
    ]);
    parallel.init();
    parallel.periodic(Duration::from_secs(0));
    parallel.end(true);
    assert_eq!(count(&log, "a.end(false)"), 1);
    assert_eq!(count(&log, "a.end(true)"), 0);
    assert_eq!(count(&log, "b.end(true)"), 1);
    assert_eq!(count(&log, "c.end(true)"), 1);
}

#[test]
fn interrupted_sequence_ends_only_the_current_child() {
    let log = new_log();
    let mut sequence = Command::sequential(vec![
        logged(&log, "a", 1, vec![]),
        logged(&log, "b", 0, vec![]),
        logged(&log, "c", 0, vec![]),
    ]);
    sequence.init();
    sequence.periodic(Duration::from_secs(0));
    sequence.periodic(Duration::from_secs(0));
    sequence.end(true);
    assert_eq!(
        *log.borrow(),
        vec!["a.init", "a.periodic", "a.end(false)", "b.init", "b.periodic", "b.end(true)"]
    );
    let mut finished = Command::sequential(vec![logged(&log, "d", 1, vec![])]);
    finished.init();
    finished.periodic(Duration::from_secs(0));
    assert!(finished.is_finished());
    finished.end(false);
    assert_eq!(count(&log, "d.end(false)"), 1);
    assert_eq!(count(&log, "d.end(true)"), 0);
}

#[test]
fn wait_finishes_once_the_time_has_passed() {
    let mut wait_command = Command::wait_for(Duration::from_millis(40));
    wait_command.init();
    wait_command.periodic(Duration::from_secs(0));
    assert!(!wait_command.is_finished());
    wait(Duration::from_millis(60));
    assert!(wait_command.is_finished());
    // A new `init` starts the wait anew.
    wait_command.init();
    assert!(!wait_command.is_finished());
}

#[test]
fn wait_rule_is_elapsed_at_least_duration() {
    let wait_command = match Command::wait_for(Duration::from_millis(100)) {
        Command::Wait(wait_command) => wait_command,
        _ => unreachable!(),
    };
    assert!(!wait_command.finished_after(Duration::from_millis(99)));
    assert!(wait_command.finished_after(Duration::from_millis(100)));
    assert!(wait_command.finished_after(Duration::from_millis(101)));
    assert!(!wait_command.finished_after(Duration::from_secs(0)));
}

#[test]
fn command_without_finish_hook_runs_forever() {
    let mut command = CommandBuilder::new().periodic(|_: Duration| {}).build();
    command.init();
    for _ in 0..10 {
        command.periodic(Duration::from_secs(0));
        assert!(!command.is_finished());
    }
}

struct Declared;

impl CommandTrait for Declared {
    fn get_requirements(&self) -> Vec<SubsystemSUID> {
        vec![3, 1]
    }

    fn run_when_disabled(&self) -> bool {
        true
    }

    fn cancel_incoming(&self) -> bool {
        true
    }

    fn get_name(&self) -> String {
        "declared".to_owned()
    }
}

struct Plain;

impl CommandTrait for Plain {}

#[test]
fn custom_command_keeps_what_was_declared() {
    let custom = Command::custom(Box::new(Declared));
    assert_eq!(custom.get_requirements(), vec![3, 1]);
    assert!(custom.cancel_incoming());
    assert!(custom.run_when_disabled());
    assert_eq!(custom.get_name(), "declared");

    let mut plain = Command::custom(Box::new(Plain));
    assert!(plain.get_requirements().is_empty());
    assert!(!plain.cancel_incoming());
    assert!(!plain.run_when_disabled());
    assert_eq!(plain.get_name(), "unnamed");
    plain.init();
    plain.periodic(Duration::from_secs(0));
    assert!(!plain.is_finished());
    plain.end(false);

    let stated = Command::Custom(CustomCommand::with_declaration(
        Box::new(Plain),
        vec![6],
        true,
        false,
        "stated".to_owned(),
    ));
    assert_eq!(stated.get_requirements(), vec![6]);
    assert!(stated.cancel_incoming());
    assert!(!stated.run_when_disabled());
    assert_eq!(stated.get_name(), "stated");
}

#[test]
fn wrappers_pass_the_flags_through_and_composites_do_not() {
    let named = Command::custom(Box::new(Declared)).with_name("n");
    assert!(named.cancel_incoming());
    assert!(named.run_when_disabled());
    let widened = Command::custom(Box::new(Declared)).with_extra_suids(vec![9]);
    assert!(widened.cancel_incoming());
    assert!(widened.run_when_disabled());
    assert_eq!(sorted(widened.get_requirements()), vec![1, 3, 9]);
    let composite = Command::custom(Box::new(Declared)).along_with(Command::empty());
    assert!(!composite.cancel_incoming());
    assert!(!composite.run_when_disabled());
    assert!(!Command::empty().cancel_incoming());
    assert!(!Command::wait_for(Duration::from_secs(1)).run_when_disabled());
}

struct Blink;

impl ConstHooks for Blink {
    fn is_finished(&self) -> bool {
        true
    }
}

struct Idle;

impl ConstHooks for Idle {}

static BLINK: Blink = Blink;
static IDLE: Idle = Idle;
static BLINK_NEEDS: [SubsystemSUID; 2] = [21, 22];

#[test]
fn const_command() {
    let constant = ConstCommand::new(&BLINK, &BLINK_NEEDS);
    let copy = constant;
    let mut command = Command::Const(constant);
    assert_eq!(command.get_requirements(), vec![21, 22]);
    assert_eq!(command.get_name(), "unnamed");
    command.init();
    command.periodic(Duration::from_secs(0));
    assert!(command.is_finished());
    command.end(false);
    assert_eq!(Command::from(copy).get_requirements(), vec![21, 22]);

    let mut idle = Command::Const(ConstCommand::new(&IDLE, &[]));
    idle.init();
    idle.periodic(Duration::from_secs(0));
    assert!(!idle.is_finished());
    assert!(idle.get_requirements().is_empty());
}

#[test]
fn conversions() {
    let from_builder = Command::from(CommandBuilder::new().with_suid(3));
    assert_eq!(from_builder.get_requirements(), vec![3]);
    let boxed: Box<dyn CommandTrait> = Box::new(Declared);
    let from_custom = Command::from(boxed);
    assert_eq!(from_custom.get_name(), "declared");
    let from_proxy = Command::from(ProxyCommand::new(Command::empty, vec![4]));
    assert_eq!(from_proxy.get_requirements(), vec![4]);
    match Command::empty() {
        Command::Simple(simple) => assert!(Command::from(simple).get_requirements().is_empty()),
        _ => unreachable!(),
    }
    assert!(Command::default().get_requirements().is_empty());
}

#[test]
fn parallel_that_is_no_race_leaves_running_children_alone_on_end_false() {
    let log = new_log();
    let mut parallel = Command::parallel(vec![
        logged(&log, "f", 1, vec![]),
        logged(&log, "g", 0, vec![]),
    ]);
    parallel.init();
    parallel.periodic(Duration::from_secs(0));
    assert_eq!(count(&log, "f.end(false)"), 1);
    let before = log.borrow().len();
    parallel.end(false);
    assert_eq!(log.borrow().len(), before);
    assert_eq!(count(&log, "g.end(true)"), 0);
    assert_eq!(count(&log, "g.end(false)"), 0);
    assert!(!parallel.is_finished());
}

#[test]
fn interrupted_parallel_ends_each_running_child_once() {
    let log = new_log();
    let mut parallel = Command::parallel(vec![
        logged(&log, "f", 1, vec![]),
        logged(&log, "g", 0, vec![]),
    ]);
    parallel.init();
    parallel.periodic(Duration::from_secs(0));
    parallel.end(true);
    assert_eq!(count(&log, "g.end(true)"), 1);
    assert_eq!(count(&log, "f.end(false)"), 1);
    assert_eq!(count(&log, "f.end(true)"), 0);
    let before = log.borrow().len();
    parallel.end(true);
    assert_eq!(log.borrow().len(), before);
    parallel.end(false);
    assert_eq!(log.borrow().len(), before);
}

#[test]
fn requirement_lists_of_leaves_keep_order_and_sets_have_no_repeats() {
    let built = CommandBuilder::new().with_suid(9).with_suid(4).with_suid(9).build();
    assert_eq!(built.get_requirements(), vec![9, 4, 9]);
    let both = Command::parallel(vec![requiring(vec![1, 2]), requiring(vec![2, 3])]);
    assert_eq!(sorted(both.get_requirements()), vec![1, 2, 3]);
    let chain = Command::sequential(vec![requiring(vec![3, 1]), requiring(vec![1, 2])]);
    assert_eq!(sorted(chain.get_requirements()), vec![1, 2, 3]);
    let proxy = Command::from(ProxyCommand::new(Command::empty, vec![6, 5, 6]));
    assert_eq!(sorted(proxy.get_requirements()), vec![5, 6]);
    let widened = requiring(vec![5, 6]).with_extra_suids(vec![6, 7]);
    assert_eq!(widened.get_requirements(), vec![5, 6, 6, 7]);
    let named = requiring(vec![8, 7]).with_name("n");
    assert_eq!(named.get_requirements(), vec![8, 7]);
    assert!(Command::parallel(vec![]).get_requirements().is_empty());
}

#[test]
fn last_setter_wins() {
    let log = new_log();
    let (l1, l2, l3) = (log.clone(), log.clone(), log.clone());
    let mut command = CommandBuilder::new()
        .init(move || note(&l1, "init"))
        .is_finished(move || {
            note(&l2, "first");
            false
        })
        .is_finished(move || {
            note(&l3, "second");
            true
        })
        .build();
    command.init();
    command.periodic(Duration::from_secs(0));
    assert!(command.is_finished());
    assert_eq!(count(&log, "first"), 0);
    assert_eq!(count(&log, "second"), 1);
    assert_eq!(count(&log, "init"), 1);
}

#[test]
fn proxy_asks_its_supplier_once_per_init_and_drops_the_old_command() {
    let log = new_log();
    let made = Rc::new(Cell::new(0usize));
    let (l, m) = (log.clone(), made.clone());
    let mut proxy = Command::from(ProxyCommand::new(
        move || {
            m.set(m.get() + 1);
            let (a, b) = (l.clone(), l.clone());
            let number = m.get();
            CommandBuilder::new()
                .init(move || note(&a, &format!("init {}", number)))
                .end(move |_| note(&b, &format!("end {}", number)))
                .build()
        },
        vec![3],
    ));
    assert_eq!(proxy.get_requirements(), vec![3]);
    proxy.init();
    assert_eq!(made.get(), 1);
    proxy.periodic(Duration::from_secs(0));
    assert!(!proxy.is_finished());
    proxy.end(true);
    assert_eq!(made.get(), 1);
    proxy.init();
    assert_eq!(made.get(), 2);
    proxy.end(false);
    assert_eq!(*log.borrow(), vec!["init 1", "end 1", "init 2", "end 2"]);
    assert_eq!(proxy.get_requirements(), vec![3]);
}
